use vstd::prelude::*;
use crate::load_balancer::TargetAddressType;
use crate::text::{decimal, ipv4_text, ipv6_text, push_char, push_decimal, push_ipv4, push_ipv6};

verus! {

// Authentication methods
pub const NOAUTH: u8 = 0x00;
pub const GSSAPI: u8 = 0x01;
pub const USERNAME_PASSWORD: u8 = 0x02;
pub const NO_ACCEPTABLE_METHOD: u8 = 0xFF;

// Commands
pub const CONNECT: u8 = 0x01;
pub const BIND: u8 = 0x02;
pub const UDP_ASSOCIATE: u8 = 0x03;

// Address types
pub const IPV4: u8 = 0x01;
pub const DOMAIN: u8 = 0x03;
pub const IPV6: u8 = 0x04;

// Reply codes
pub const SUCCESS: u8 = 0x00;
pub const SERVER_FAILURE: u8 = 0x01;
pub const CONNECTION_NOT_ALLOWED: u8 = 0x02;
pub const NETWORK_UNREACHABLE: u8 = 0x03;
pub const HOST_UNREACHABLE: u8 = 0x04;
pub const CONNECTION_REFUSED: u8 = 0x05;
pub const TTL_EXPIRED: u8 = 0x06;
pub const COMMAND_NOT_SUPPORTED: u8 = 0x07;
pub const ADDRTYPE_NOT_SUPPORTED: u8 = 0x08;

/// Destination address of a CONNECT request, as carried on the wire.
#[derive(Debug, Clone)]
pub enum TargetAddress {
    Ipv4(Vec<u8>),
    Ipv6(Vec<u8>),
    Domain(Vec<u8>),
}

/// A decoded CONNECT request.
#[derive(Debug, Clone)]
pub struct ConnectRequest {
    pub address: TargetAddress,
    pub port: u16,
}

/// Outcome of decoding a greeting from the bytes received so far.
#[derive(Debug)]
pub enum GreetingDecode {
    /// At least this many bytes in all are needed.
    Incomplete(usize),
    /// A complete greeting with a version other than 5.
    Unsupported(u8),
    /// A complete SOCKS5 greeting, with the methods it offers.
    Accepted(Vec<u8>),
}

/// Outcome of decoding a request from the bytes received so far.
#[derive(Debug)]
pub enum RequestDecode {
    /// At least this many bytes in all are needed.
    Incomplete(usize),
    /// The request is refused; the reply carries this code.
    Rejected(u8),
    /// A complete request, and the number of bytes it occupies.
    Decoded(ConnectRequest, usize),
}

/// What a prefix of a request stream determines.
pub enum RequestStatus {
    NeedMore(int),
    Reject(u8),
    Complete(int),
}

pub open spec fn reply_spec(code: u8) -> Seq<u8> {
    seq![5u8, code, 0u8, 1u8, 0u8, 0u8, 0u8, 0u8, 0u8, 0u8]
}

/// A reply with the given code and the all-zero IPv4 bound address and port.
pub fn reply(code: u8) -> (r: Vec<u8>)
    ensures
        r@ == reply_spec(code),
{
    let r = vec![5u8, code, 0u8, 1u8, 0u8, 0u8, 0u8, 0u8, 0u8, 0u8];
    assert(r@ =~= reply_spec(code));
    r
}

/// The method selection message: version 5, no authentication.
pub fn servers_choice() -> (r: Vec<u8>)
    ensures
        r@ == seq![5u8, NOAUTH],
{
    let r = vec![5u8, NOAUTH];
    assert(r@ =~= seq![5u8, NOAUTH]);
    r
}

fn copy_range(b: &[u8], from: usize, to: usize) -> (r: Vec<u8>)
    requires
        from <= to <= b@.len(),
    ensures
        r@ == b@.subrange(from as int, to as int),
{
    let mut r: Vec<u8> = Vec::new();
    let mut i = from;
    while i < to
        invariant
            from <= i <= to <= b@.len(),
            r@ == b@.subrange(from as int, i as int),
        decreases to - i,
    {
        r.push(b[i]);
        assert(r@ =~= b@.subrange(from as int, i as int + 1));
        i += 1;
    }
    r
}

/// Decodes a greeting `ver, nmethods, methods...` from the bytes received so far.
pub fn client_greeting(buf: &[u8]) -> (r: GreetingDecode)
    ensures
        buf@.len() < 2 ==> r == GreetingDecode::Incomplete(2),
        buf@.len() >= 2 && buf@.len() < 2 + buf@[1] ==> r == GreetingDecode::Incomplete(
            (2 + buf@[1]) as usize,
        ),
        buf@.len() >= 2 && buf@.len() >= 2 + buf@[1] && buf@[0] != 5 ==> r
            == GreetingDecode::Unsupported(buf@[0]),
        buf@.len() >= 2 && buf@.len() >= 2 + buf@[1] && buf@[0] == 5 ==> (match r {
            GreetingDecode::Accepted(m) => m@ == buf@.subrange(2, 2 + buf@[1]),
            _ => false,
        }),
{
    if buf.len() < 2 {
        return GreetingDecode::Incomplete(2);
    }
    let total = 2 + buf[1] as usize;
    if buf.len() < total {
        return GreetingDecode::Incomplete(total);
    }
    if buf[0] != 5 {
        return GreetingDecode::Unsupported(buf[0]);
    }
    GreetingDecode::Accepted(copy_range(buf, 2, total))
}

impl TargetAddress {
    pub open spec fn wf(&self) -> bool {
        match self {
            TargetAddress::Ipv4(v) => v@.len() == 4,
            TargetAddress::Ipv6(v) => v@.len() == 16,
            TargetAddress::Domain(v) => v@.len() <= 255,
        }
    }

    /// The address type byte.
    pub open spec fn atyp(&self) -> u8 {
        match self {
            TargetAddress::Ipv4(_) => IPV4,
            TargetAddress::Ipv6(_) => IPV6,
            TargetAddress::Domain(_) => DOMAIN,
        }
    }

    /// The address as encoded after the type byte.
    pub open spec fn wire(&self) -> Seq<u8> {
        match self {
            TargetAddress::Ipv4(v) => v@,
            TargetAddress::Ipv6(v) => v@,
            TargetAddress::Domain(v) => seq![v@.len() as u8] + v@,
        }
    }
}

/// What `String::from_utf8_lossy` makes of a byte sequence.
pub uninterp spec fn utf8_lossy(b: Seq<u8>) -> Seq<char>;

/// Relies on `String::from_utf8_lossy`: the text of the bytes, with each invalid
/// sequence replaced; the result depends on the bytes alone.
#[verifier::external_body]
fn lossy_text(b: &[u8]) -> (r: String)
    ensures
        r@ == utf8_lossy(b@),
{
    String::from_utf8_lossy(b).into_owned()
}

pub open spec fn port_bytes(port: u16) -> Seq<u8> {
    seq![(port / 256) as u8, (port % 256) as u8]
}

impl ConnectRequest {
    pub open spec fn wf(&self) -> bool {
        self.address.wf()
    }

    /// The request's encoding on the wire, with a zero reserved byte.
    pub open spec fn encoding(&self) -> Seq<u8> {
        seq![5u8, CONNECT, 0u8, self.address.atyp()] + self.address.wire() + port_bytes(self.port)
    }

    /// The text form of the destination: `a.b.c.d:port`, `[v6]:port` or `host:port`.
    pub open spec fn target_text(&self) -> Seq<char> {
        let port = seq![':'] + decimal(self.port as nat);
        match self.address {
            TargetAddress::Ipv4(v) => ipv4_text(v@) + port,
            TargetAddress::Ipv6(v) => seq!['['] + ipv6_text(v@) + seq![']'] + port,
            TargetAddress::Domain(v) => utf8_lossy(v@) + port,
        }
    }

    pub open spec fn target_type_spec(&self) -> TargetAddressType {
        match self.address {
            TargetAddress::Ipv4(_) => TargetAddressType::IPv4,
            TargetAddress::Ipv6(_) => TargetAddressType::IPv6,
            TargetAddress::Domain(_) => TargetAddressType::Domain,
        }
    }

    /// `b` is a complete request whose fields are those of `self`; the reserved
    /// byte is not looked at.
    pub open spec fn decoded_from(&self, b: Seq<u8>) -> bool {
        &&& self.wf()
        &&& b.len() == self.encoding().len()
        &&& b[0] == 5
        &&& b[1] == CONNECT
        &&& b[3] == self.address.atyp()
        &&& b.subrange(4, b.len() - 2) == self.address.wire()
        &&& self.port as int == b[b.len() - 2] as int * 256 + b[b.len() - 1] as int
    }

    /// Encodes the request as a client sends it.
    pub fn encode(&self) -> (r: Vec<u8>)
        requires
            self.wf(),
        ensures
            r@ == self.encoding(),
    {
        let mut r: Vec<u8> = vec![5u8, CONNECT, 0u8];
        let body: &Vec<u8>;
        match &self.address {
            TargetAddress::Ipv4(v) => {
                r.push(IPV4);
                body = v;
            },
            TargetAddress::Ipv6(v) => {
                r.push(IPV6);
                body = v;
            },
            TargetAddress::Domain(v) => {
                r.push(DOMAIN);
                r.push(v.len() as u8);
                body = v;
            },
        }
        let ghost head = r@;
        let mut i: usize = 0;
        while i < body.len()
            invariant
                i <= body@.len(),
                r@ == head + body@.subrange(0, i as int),
            decreases body@.len() - i,
        {
            r.push(body[i]);
            assert(r@ =~= head + body@.subrange(0, i as int + 1));
            i += 1;
        }
        r.push((self.port / 256) as u8);
        r.push((self.port % 256) as u8);
        assert(body@.subrange(0, body@.len() as int) =~= body@);
        assert(r@ =~= self.encoding());
        r
    }

    /// The address family of the destination.
    pub fn target_type(&self) -> (r: TargetAddressType)
        ensures
            r == self.target_type_spec(),
    {
        match &self.address {
            TargetAddress::Ipv4(_) => TargetAddressType::IPv4,
            TargetAddress::Ipv6(_) => TargetAddressType::IPv6,
            TargetAddress::Domain(_) => TargetAddressType::Domain,
        }
    }

    /// The destination as text suitable for resolution.
    pub fn target_address(&self) -> (r: String)
        requires
            self.wf(),
        ensures
            r@ == self.target_text(),
    {
        let mut s: String;
        match &self.address {
            TargetAddress::Ipv4(v) => {
                s = String::new();
                push_ipv4(&mut s, v.as_slice());
            },
            TargetAddress::Ipv6(v) => {
                s = String::new();
                push_char(&mut s, '[');
                push_ipv6(&mut s, v.as_slice());
                push_char(&mut s, ']');
            },
            TargetAddress::Domain(v) => {
                s = lossy_text(v.as_slice());
            },
        }
        push_char(&mut s, ':');
        push_decimal(&mut s, self.port as u32);
        assert(s@ =~= self.target_text());
        s
    }
}

/// A request of `total` bytes: complete once that many have arrived.
pub open spec fn framed(b: Seq<u8>, total: int) -> RequestStatus {
    if b.len() < total {
        RequestStatus::NeedMore(total)
    } else {
        RequestStatus::Complete(total)
    }
}

/// What the bytes received so far determine about a request: checks go in
/// order version, command, address type, then length.
pub open spec fn request_status(b: Seq<u8>) -> RequestStatus {
    if b.len() < 4 {
        RequestStatus::NeedMore(4)
    } else if b[0] != 5 {
        RequestStatus::Reject(SERVER_FAILURE)
    } else if b[1] != CONNECT {
        RequestStatus::Reject(COMMAND_NOT_SUPPORTED)
    } else if b[3] == IPV4 {
        framed(b, 10)
    } else if b[3] == IPV6 {
        framed(b, 22)
    } else if b[3] == DOMAIN {
        if b.len() < 5 {
            RequestStatus::NeedMore(5)
        } else {
            framed(b, 7 + b[4])
        }
    } else {
        RequestStatus::Reject(ADDRTYPE_NOT_SUPPORTED)
    }
}

/// Decodes a CONNECT request from the bytes received so far.
pub fn client_connection_request(buf: &[u8]) -> (r: RequestDecode)
    ensures
        match r {
            RequestDecode::Incomplete(n) => request_status(buf@) == RequestStatus::NeedMore(n as int),
            RequestDecode::Rejected(c) => request_status(buf@) == RequestStatus::Reject(c),
            RequestDecode::Decoded(req, n) => request_status(buf@) == RequestStatus::Complete(n as int)
                && req.decoded_from(buf@.subrange(0, n as int)),
        },
{
    if buf.len() < 4 {
        return RequestDecode::Incomplete(4);
    }
    if buf[0] != 5 {
        return RequestDecode::Rejected(SERVER_FAILURE);
    }
    if buf[1] != CONNECT {
        return RequestDecode::Rejected(COMMAND_NOT_SUPPORTED);
    }
    let atyp = buf[3];
    let (start, total): (usize, usize) = if atyp == IPV4 {
        (4, 10)
    } else if atyp == IPV6 {
        (4, 22)
    } else if atyp == DOMAIN {
        if buf.len() < 5 {
            return RequestDecode::Incomplete(5);
        }
        (5, 7 + buf[4] as usize)
    } else {
        return RequestDecode::Rejected(ADDRTYPE_NOT_SUPPORTED);
    };
    if buf.len() < total {
        return RequestDecode::Incomplete(total);
    }
    let bytes = copy_range(buf, start, total - 2);
    let address = if atyp == IPV4 {
        TargetAddress::Ipv4(bytes)
    } else if atyp == IPV6 {
        TargetAddress::Ipv6(bytes)
    } else {
        TargetAddress::Domain(bytes)
    };
    let port = (buf[total - 2] as u16) * 256 + buf[total - 1] as u16;
    let req = ConnectRequest { address, port };
    proof {
        let b = buf@.subrange(0, total as int);
        assert(b.subrange(4, b.len() - 2) =~= req.address.wire());
    }
    RequestDecode::Decoded(req, total)
}

/// Decoding a complete request with a zero reserved byte and encoding it again
/// gives back the same bytes.
pub proof fn lemma_decode_encode(b: Seq<u8>, req: ConnectRequest)
    requires
        req.decoded_from(b),
        b[2] == 0,
    ensures
        req.encoding() == b,
{
    let e = req.encoding();
    let n = b.len();
    assert(e.subrange(4, n - 2) =~= req.address.wire());
    assert(e =~= b) by {
        assert forall|i: int| 0 <= i < n implies e[i] == b[i] by {
            if 4 <= i < n - 2 {
                assert(e[i] == e.subrange(4, n - 2)[i - 4]);
                assert(b[i] == b.subrange(4, n - 2)[i - 4]);
            }
        }
    }
}

/// Every well-formed request encodes to bytes that decode to it.
pub proof fn lemma_encode_decode(req: ConnectRequest)
    requires
        req.wf(),
    ensures
        request_status(req.encoding()) == RequestStatus::Complete(req.encoding().len() as int),
        req.decoded_from(req.encoding()),
{
    let e = req.encoding();
    assert(e.subrange(4, e.len() - 2) =~= req.address.wire());
}

} // verus!

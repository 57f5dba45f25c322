use vstd::prelude::*;
use vstd::string::{StrSliceExecFns, StringExecFns};
use crate::load_balancer::LoadBalancer;
use crate::text::{decimal, ipv4_text, ipv6_text, push_char, push_decimal, push_ipv4, push_ipv6};

verus! {

/// Why a set of egress specifications was refused.
#[derive(Debug, Clone, Copy, PartialEq, Eq, Structural)]
pub enum ConfigErrorKind {
    NoBalancers,
    InvalidRatio,
    InvalidIpv6,
    InvalidSpec,
    InvalidPort,
    NoWorkingInterfaces,
}

/// A refused specification: the reason, and the address part it concerns.
#[derive(Debug, Clone)]
pub struct ConfigError {
    pub kind: ConfigErrorKind,
    pub subject: String,
}

/// Index of the first `c` at or after `i`, or the length when there is none.
pub open spec fn index_of(s: Seq<char>, c: char, i: int) -> int
    decreases s.len() - i,
{
    if i < 0 || i >= s.len() {
        s.len() as int
    } else if s[i] == c {
        i
    } else {
        index_of(s, c, i + 1)
    }
}

/// Index of the last `c` before `i`, or -1 when there is none.
pub open spec fn last_index_of(s: Seq<char>, c: char, i: int) -> int
    decreases i,
{
    if i <= 0 || i > s.len() {
        -1
    } else if s[i - 1] == c {
        i - 1
    } else {
        last_index_of(s, c, i - 1)
    }
}

pub open spec fn is_digit(c: char) -> bool {
    '0' <= c <= '9'
}

pub open spec fn digits_value(s: Seq<char>) -> nat
    decreases s.len(),
{
    if s.len() == 0 {
        0
    } else {
        digits_value(s.drop_last()) * 10 + (s.last() as nat - '0' as nat) as nat
    }
}

/// The value of an unsigned decimal numeral: an optional `+` and one or more
/// ASCII digits.
pub open spec fn unsigned_value(s: Seq<char>) -> Option<nat> {
    let d = if s.len() > 1 && s[0] == '+' {
        s.drop_first()
    } else {
        s
    };
    if d.len() >= 1 && forall|i: int| 0 <= i < d.len() ==> is_digit(#[trigger] d[i]) {
        Some(digits_value(d))
    } else {
        None
    }
}

/// Relies on `<u32 as FromStr>::from_str`: an optional `+` followed by ASCII
/// digits, whose value fits.
#[verifier::external_body]
fn parse_u32(s: &str) -> (r: Option<u32>)
    ensures
        r == (match unsigned_value(s@) {
            Some(v) => if v <= u32::MAX {
                Some(v as u32)
            } else {
                None
            },
            None => None,
        }),
{
    s.parse::<u32>().ok()
}

/// Relies on `<u16 as FromStr>::from_str`: an optional `+` followed by ASCII
/// digits, whose value fits.
#[verifier::external_body]
fn parse_u16(s: &str) -> (r: Option<u16>)
    ensures
        r == (match unsigned_value(s@) {
            Some(v) => if v <= u16::MAX {
                Some(v as u16)
            } else {
                None
            },
            None => None,
        }),
{
    s.parse::<u16>().ok()
}

/// The part of a specification before its first `@`.
pub open spec fn address_part(s: Seq<char>) -> Seq<char> {
    s.subrange(0, index_of(s, '@', 0))
}

/// The weight of a specification: 1 without `@`, else the numeral between the
/// first `@` and the next one, which must be positive.
pub open spec fn weight_outcome(s: Seq<char>) -> Result<u32, ConfigErrorKind> {
    let p = index_of(s, '@', 0);
    if p >= s.len() {
        Ok(1)
    } else {
        let rest = s.subrange(p + 1, s.len() as int);
        match unsigned_value(rest.subrange(0, index_of(rest, '@', 0))) {
            Some(v) => if 1 <= v <= u32::MAX {
                Ok(v as u32)
            } else {
                Err(ConfigErrorKind::InvalidRatio)
            },
            None => Err(ConfigErrorKind::InvalidRatio),
        }
    }
}

/// Host and port text of `host:port` or `[v6]:port`.
pub open spec fn host_port(a: Seq<char>) -> Result<(Seq<char>, Seq<char>), ConfigErrorKind> {
    if a.len() > 0 && a[0] == '[' {
        let e = index_of(a, ']', 0);
        if e >= a.len() {
            Err(ConfigErrorKind::InvalidIpv6)
        } else if e + 1 >= a.len() || a[e + 1] != ':' {
            Err(ConfigErrorKind::InvalidSpec)
        } else {
            Ok((a.subrange(0, e + 1), a.subrange(e + 2, a.len() as int)))
        }
    } else {
        let q = last_index_of(a, ':', a.len() as int);
        if q < 0 {
            Err(ConfigErrorKind::InvalidSpec)
        } else {
            Ok((a.subrange(0, q), a.subrange(q + 1, a.len() as int)))
        }
    }
}

/// A tunnel-mode specification `host:port[@weight]`: the relay address with the
/// port normalised, the weight and whether the host is a bracketed IPv6 literal.
pub open spec fn tunnel_outcome(s: Seq<char>) -> Result<(Seq<char>, u32, bool), ConfigErrorKind> {
    match weight_outcome(s) {
        Err(k) => Err(k),
        Ok(w) => match host_port(address_part(s)) {
            Err(k) => Err(k),
            Ok((h, p)) => match unsigned_value(p) {
                Some(v) => if 1 <= v <= u16::MAX {
                    Ok((h + seq![':'] + decimal(v), w, h.len() > 0 && h[0] == '['))
                } else {
                    Err(ConfigErrorKind::InvalidPort)
                },
                None => Err(ConfigErrorKind::InvalidPort),
            },
        },
    }
}

fn find_char(s: &str, c: char, from: usize) -> (r: usize)
    requires
        from <= s@.len(),
    ensures
        r as int == index_of(s@, c, from as int),
        from <= r <= s@.len(),
{
    let n = s.unicode_len();
    let mut i = from;
    while i < n
        invariant
            from <= i <= n,
            n == s@.len(),
            index_of(s@, c, from as int) == index_of(s@, c, i as int),
        decreases n - i,
    {
        if s.get_char(i) == c {
            return i;
        }
        i += 1;
    }
    i
}

fn rfind_char(s: &str, c: char) -> (r: Option<usize>)
    ensures
        match r {
            Some(q) => q as int == last_index_of(s@, c, s@.len() as int) && q < s@.len(),
            None => last_index_of(s@, c, s@.len() as int) < 0,
        },
{
    let mut i = s.unicode_len();
    while i > 0
        invariant
            i <= s@.len(),
            last_index_of(s@, c, s@.len() as int) == last_index_of(s@, c, i as int),
        decreases i,
    {
        if s.get_char(i - 1) == c {
            return Some(i - 1);
        }
        i -= 1;
    }
    None
}

fn config_error(kind: ConfigErrorKind, subject: &str) -> (r: ConfigError)
    ensures
        r.kind == kind,
        r.subject@ == subject@,
{
    ConfigError { kind, subject: subject.to_owned() }
}

/// Splits a specification into its address part and its weight.
pub fn split_weight(arg: &str) -> (r: Result<(String, u32), ConfigError>)
    ensures
        match weight_outcome(arg@) {
            Ok(w) => r is Ok && r->Ok_0.0@ == address_part(arg@) && r->Ok_0.1 == w,
            Err(k) => r is Err && r->Err_0.kind == k && r->Err_0.subject@ == address_part(arg@),
        },
{
    let n = arg.unicode_len();
    let p = find_char(arg, '@', 0);
    let address = arg.substring_char(0, p);
    if p >= n {
        return Ok((address.to_owned(), 1));
    }
    let rest = arg.substring_char(p + 1, n);
    let q = find_char(rest, '@', 0);
    let text = rest.substring_char(0, q);
    match parse_u32(text) {
        Some(w) => {
            if w == 0 {
                Err(config_error(ConfigErrorKind::InvalidRatio, address))
            } else {
                Ok((address.to_owned(), w))
            }
        },
        None => Err(config_error(ConfigErrorKind::InvalidRatio, address)),
    }
}

/// Parses one tunnel-mode specification `host:port[@weight]`.
pub fn parse_tunnel_balancer(arg: &str) -> (r: Result<LoadBalancer, ConfigError>)
    ensures
        match tunnel_outcome(arg@) {
            Ok((a, w, v6)) => r is Ok && r->Ok_0.address@ == a && r->Ok_0.iface is None
                && r->Ok_0.contention_ratio == w && r->Ok_0.is_ipv6 == v6,
            Err(k) => r is Err && r->Err_0.kind == k && r->Err_0.subject@ == address_part(arg@),
        },
{
    let (address, weight) = match split_weight(arg) {
        Ok(pair) => pair,
        Err(e) => {
            return Err(e);
        },
    };
    let a = address.as_str();
    let n = a.unicode_len();
    let (host, port_text) = if n > 0 && a.get_char(0) == '[' {
        let e = find_char(a, ']', 0);
        if e >= n {
            return Err(config_error(ConfigErrorKind::InvalidIpv6, a));
        }
        if e + 1 >= n || a.get_char(e + 1) != ':' {
            return Err(config_error(ConfigErrorKind::InvalidSpec, a));
        }
        (a.substring_char(0, e + 1), a.substring_char(e + 2, n))
    } else {
        match rfind_char(a, ':') {
            Some(q) => (a.substring_char(0, q), a.substring_char(q + 1, n)),
            None => {
                return Err(config_error(ConfigErrorKind::InvalidSpec, a));
            },
        }
    };
    let port = match parse_u16(port_text) {
        Some(p) => p,
        None => {
            return Err(config_error(ConfigErrorKind::InvalidPort, a));
        },
    };
    if port == 0 {
        return Err(config_error(ConfigErrorKind::InvalidPort, a));
    }
    let is_ipv6 = host.unicode_len() > 0 && host.get_char(0) == '[';
    let mut text = host.to_owned();
    push_char(&mut text, ':');
    push_decimal(&mut text, port as u32);
    assert(text@ =~= host@ + seq![':'] + decimal(port as nat));
    Ok(LoadBalancer::new(text, None, weight, is_ipv6))
}

/// Parses the tunnel-mode specifications, in order; at least one is required.
pub fn parse_tunnel_balancers(args: &Vec<String>) -> (r: Result<Vec<LoadBalancer>, ConfigError>)
    ensures
        args@.len() == 0 ==> r is Err && r->Err_0.kind == ConfigErrorKind::NoBalancers,
        r is Ok ==> r->Ok_0@.len() == args@.len() && forall|i: int|
            0 <= i < args@.len() ==> (match tunnel_outcome(#[trigger] args@[i]@) {
                Ok((a, w, v6)) => r->Ok_0@[i].address@ == a && r->Ok_0@[i].iface is None
                    && r->Ok_0@[i].contention_ratio == w && r->Ok_0@[i].is_ipv6 == v6,
                Err(_) => false,
            }),
        args@.len() > 0 && r is Err ==> exists|i: int|
            0 <= i < args@.len() && (forall|j: int| 0 <= j < i ==> #[trigger] tunnel_outcome(args@[j]@) is Ok)
                && tunnel_outcome(args@[i]@) == Err::<(Seq<char>, u32, bool), ConfigErrorKind>(r->Err_0.kind),
        args@.len() > 0 && (forall|i: int| 0 <= i < args@.len() ==> #[trigger] tunnel_outcome(args@[i]@) is Ok)
            ==> r is Ok,
{
    if args.len() == 0 {
        return Err(config_error(ConfigErrorKind::NoBalancers, ""));
    }
    let mut out: Vec<LoadBalancer> = Vec::new();
    let mut i: usize = 0;
    while i < args.len()
        invariant
            i <= args@.len(),
            args@.len() > 0,
            out@.len() == i,
            forall|j: int| 0 <= j < i ==> (match tunnel_outcome(#[trigger] args@[j]@) {
                Ok((a, w, v6)) => out@[j].address@ == a && out@[j].iface is None
                    && out@[j].contention_ratio == w && out@[j].is_ipv6 == v6,
                Err(_) => false,
            }),
        decreases args@.len() - i,
    {
        match parse_tunnel_balancer(args[i].as_str()) {
            Ok(lb) => {
                out.push(lb);
            },
            Err(e) => {
                assert(forall|j: int| 0 <= j < i ==> #[trigger] tunnel_outcome(args@[j]@) is Ok);
                return Err(e);
            },
        }
        i += 1;
    }
    Ok(out)
}

/// Removes the brackets around a bracketed IPv6 literal; other text is kept.
pub fn strip_brackets(s: &str) -> (r: &str)
    ensures
        r@ == (if s@.len() >= 2 && s@[0] == '[' && s@[s@.len() - 1] == ']' {
            s@.subrange(1, s@.len() - 1)
        } else {
            s@
        }),
{
    let n = s.unicode_len();
    if n >= 2 && s.get_char(0) == '[' && s.get_char(n - 1) == ']' {
        s.substring_char(1, n - 1)
    } else {
        s
    }
}

/// The bind address of a local IP: `a.b.c.d:0` or `[v6]:0`.
pub open spec fn bind_text(ip: Seq<u8>) -> Seq<char> {
    if ip.len() == 4 {
        ipv4_text(ip) + seq![':', '0']
    } else {
        seq!['['] + ipv6_text(ip) + seq![']', ':', '0']
    }
}

/// The egress that binds to a local IP (4 or 16 bytes) on a named interface.
pub fn local_balancer(ip: &[u8], iface: String, weight: u32) -> (r: LoadBalancer)
    requires
        ip@.len() == 4 || ip@.len() == 16,
    ensures
        r.address@ == bind_text(ip@),
        r.iface == Some(iface),
        r.contention_ratio == weight,
        r.is_ipv6 == (ip@.len() == 16),
{
    let mut s = String::new();
    if ip.len() == 4 {
        push_ipv4(&mut s, ip);
    } else {
        push_char(&mut s, '[');
        push_ipv6(&mut s, ip);
        push_char(&mut s, ']');
    }
    push_char(&mut s, ':');
    push_char(&mut s, '0');
    assert(s@ =~= bind_text(ip@));
    LoadBalancer::new(s, Some(iface), weight, ip.len() == 16)
}

/// One weight-one egress per working interface, in order; none is an error.
pub fn balancers_from_detected(working: &Vec<(String, Vec<u8>)>) -> (r: Result<
    Vec<LoadBalancer>,
    ConfigError,
>)
    requires
        forall|i: int| 0 <= i < working@.len() ==> #[trigger] working@[i].1@.len() == 4
            || working@[i].1@.len() == 16,
    ensures
        r is Err <==> working@.len() == 0,
        r is Err ==> r->Err_0.kind == ConfigErrorKind::NoWorkingInterfaces,
        r is Ok ==> r->Ok_0@.len() == working@.len() && forall|i: int|
            0 <= i < working@.len() ==> {
                let lb = #[trigger] r->Ok_0@[i];
                &&& lb.address@ == bind_text(working@[i].1@)
                &&& lb.iface == Some(working@[i].0)
                &&& lb.contention_ratio == 1
                &&& lb.is_ipv6 == (working@[i].1@.len() == 16)
            },
{
    if working.len() == 0 {
        return Err(config_error(ConfigErrorKind::NoWorkingInterfaces, ""));
    }
    let mut out: Vec<LoadBalancer> = Vec::new();
    let mut i: usize = 0;
    while i < working.len()
        invariant
            i <= working@.len(),
            working@.len() > 0,
            out@.len() == i,
            forall|k: int| 0 <= k < working@.len() ==> #[trigger] working@[k].1@.len() == 4
                || working@[k].1@.len() == 16,
            forall|j: int|
                0 <= j < i ==> {
                    let lb = #[trigger] out@[j];
                    &&& lb.address@ == bind_text(working@[j].1@)
                    &&& lb.iface == Some(working@[j].0)
                    &&& lb.contention_ratio == 1
                    &&& lb.is_ipv6 == (working@[j].1@.len() == 16)
                },
        decreases working@.len() - i,
    {
        let entry = &working[i];
        let lb = local_balancer(entry.1.as_slice(), entry.0.clone(), 1);
        out.push(lb);
        i += 1;
    }
    Ok(out)
}

/// A network interface address as enumerated by the host.
#[derive(Debug, Clone)]
pub struct InterfaceAddr {
    pub name: String,
    pub ip: Vec<u8>,
    pub is_loopback: bool,
}

/// Index of the first non-loopback interface whose address is `ip`, at or after
/// `i`, or the length when there is none.
pub open spec fn interface_index(ifaces: Seq<InterfaceAddr>, ip: Seq<u8>, i: int) -> int
    decreases ifaces.len() - i,
{
    if i < 0 || i >= ifaces.len() {
        ifaces.len() as int
    } else if !ifaces[i].is_loopback && ifaces[i].ip@ == ip {
        i
    } else {
        interface_index(ifaces, ip, i + 1)
    }
}

fn same_bytes(a: &Vec<u8>, b: &[u8]) -> (r: bool)
    ensures
        r == (a@ == b@),
{
    if a.len() != b.len() {
        return false;
    }
    let mut i: usize = 0;
    while i < a.len()
        invariant
            a@.len() == b@.len(),
            i <= a@.len(),
            forall|j: int| 0 <= j < i ==> a@[j] == b@[j],
        decreases a@.len() - i,
    {
        if a[i] != b[i] {
            return false;
        }
        i += 1;
    }
    assert(a@ =~= b@);
    true
}

/// The name of the first non-loopback interface that holds `ip`.
pub fn get_iface_from_ip(ifaces: &Vec<InterfaceAddr>, ip: &[u8]) -> (r: Option<String>)
    ensures
        match r {
            Some(name) => interface_index(ifaces@, ip@, 0) < ifaces@.len() && name
                == ifaces@[interface_index(ifaces@, ip@, 0)].name,
            None => interface_index(ifaces@, ip@, 0) == ifaces@.len(),
        },
{
    let mut i: usize = 0;
    while i < ifaces.len()
        invariant
            i <= ifaces@.len(),
            interface_index(ifaces@, ip@, 0) == interface_index(ifaces@, ip@, i as int),
        decreases ifaces@.len() - i,
    {
        if !ifaces[i].is_loopback && same_bytes(&ifaces[i].ip, ip) {
            return Some(ifaces[i].name.clone());
        }
        i += 1;
    }
    None
}

} // verus!

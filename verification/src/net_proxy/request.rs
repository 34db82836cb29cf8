//! The request line of a proxied connection, and what it asks for.

use vstd::prelude::*;
use vstd::string::*;

use crate::sets::views;
use crate::text::{
    begins_with, chars_of, decimal, digit, equal_ignoring_case, find_from, find_last, first_at,
    last_at, same_ignoring_case, split, split_text, string_of, text_begins_with,
};

verus! {

/// What the first request line of a client asks for.
#[derive(Debug, PartialEq, Eq)]
pub enum Target {
    /// `CONNECT host:port HTTP/x`: a tunnel to open.
    Connect {
        /// The host.
        host: String,
        /// The port.
        port: u16,
    },
    /// `METHOD http://host[:port]/path HTTP/x`: a plaintext request to forward.
    Http {
        /// The host.
        host: String,
        /// The port.
        port: u16,
        /// The request line in origin form (`METHOD /path HTTP/x`).
        origin_line: String,
    },
}

/// The model of [`Target`].
pub ghost enum TargetView {
    Connect { host: Seq<char>, port: u16 },
    Http { host: Seq<char>, port: u16, origin_line: Seq<char> },
}

impl View for Target {
    type V = TargetView;

    open spec fn view(&self) -> TargetView {
        match self {
            Target::Connect { host, port } => TargetView::Connect { host: host@, port: *port },
            Target::Http { host, port, origin_line } => TargetView::Http {
                host: host@,
                port: *port,
                origin_line: origin_line@,
            },
        }
    }
}

impl TargetView {
    /// The host that is asked for.
    pub open spec fn host(self) -> Seq<char> {
        match self {
            TargetView::Connect { host, .. } => host,
            TargetView::Http { host, .. } => host,
        }
    }

    /// The port that is asked for.
    pub open spec fn port(self) -> u16 {
        match self {
            TargetView::Connect { port, .. } => port,
            TargetView::Http { port, .. } => port,
        }
    }
}

/// The value of decimal digits, read from the left, or none where a character
/// is no digit or there is none at all.
pub open spec fn digits_value(s: Seq<char>) -> Option<nat>
    decreases s.len(),
{
    if s.len() == 0 || !('0' <= s.last() && s.last() <= '9') {
        None
    } else {
        let d = (s.last() as int - '0' as int) as nat;
        if s.len() == 1 {
            Some(d)
        } else {
            match digits_value(s.drop_last()) {
                None => None,
                Some(n) => Some(n * 10 + d),
            }
        }
    }
}

/// The port that a text gives: decimal digits behind an optional plus sign.
pub open spec fn port_number(s: Seq<char>) -> Option<u16> {
    let digits = if s.len() > 0 && s[0] == '+' {
        s.subrange(1, s.len() as int)
    } else {
        s
    };
    match digits_value(digits) {
        Some(n) => if n <= u16::MAX {
            Some(n as u16)
        } else {
            None
        },
        None => None,
    }
}

proof fn lemma_digits_grow(s: Seq<char>, i: int)
    requires
        0 < i <= s.len(),
    ensures
        digits_value(s) is Some ==> digits_value(s.take(i)) is Some,
        digits_value(s) is Some ==> digits_value(s.take(i))->0 <= digits_value(s)->0,
    decreases s.len(),
{
    if i == s.len() {
        assert(s.take(i) =~= s);
    } else {
        lemma_digits_grow(s.drop_last(), i);
        assert(s.drop_last().take(i) =~= s.take(i));
    }
}

fn parse_port(chars: &Vec<char>, from: usize) -> (r: Option<u16>)
    requires
        from <= chars.len(),
    ensures
        r == port_number(chars@.subrange(from as int, chars@.len() as int)),
{
    let ghost s = chars@.subrange(from as int, chars@.len() as int);
    let start: usize = if from < chars.len() && chars[from] == '+' {
        from + 1
    } else {
        from
    };
    let ghost digits = chars@.subrange(start as int, chars@.len() as int);
    proof {
        if from < chars@.len() {
            assert(s[0] == chars@[from as int]);
        }
        if start > from {
            assert(s.subrange(1, s.len() as int) =~= digits);
        }
    }
    if start == chars.len() {
        return None;
    }
    let mut value: u32 = 0;
    let mut i: usize = start;
    while i < chars.len()
        invariant
            start <= i <= chars.len(),
            from <= start < chars.len(),
            s == chars@.subrange(from as int, chars@.len() as int),
            digits == chars@.subrange(start as int, chars@.len() as int),
            port_number(s) == (match digits_value(digits) {
                Some(n) => if n <= u16::MAX {
                    Some(n as u16)
                } else {
                    None
                },
                None => None,
            }),
            value <= u16::MAX,
            i > start ==> digits_value(digits.take(i - start)) == Some(value as nat),
            i == start ==> value == 0,
        decreases chars.len() - i,
    {
        let c: char = chars[i];
        proof {
            let longer = digits.take(i - start + 1);
            assert(longer.last() == c);
            assert(longer.drop_last() =~= digits.take(i - start));
            lemma_digits_grow(digits, i - start + 1);
        }
        if !('0' <= c && c <= '9') {
            return None;
        }
        value = value * 10 + (c as u32 - '0' as u32);
        if value > 65535 {
            return None;
        }
        i = i + 1;
    }
    assert(digits.take(i - start) =~= digits);
    Some(value as u16)
}

/// The host and the port of an authority: `host:port`, a bare host, or an IPv6
/// literal in brackets. None where the port is no port, or where there is a
/// port and no host.
pub open spec fn host_and_port(authority: Seq<char>, default_port: u16) -> Option<
    (Seq<char>, u16),
> {
    if authority.len() > 0 && authority[0] == '[' {
        let rest = authority.subrange(1, authority.len() as int);
        let close = first_at(rest, ']');
        if close >= rest.len() {
            None
        } else {
            let host = rest.subrange(0, close);
            let after = rest.subrange(close + 1, rest.len() as int);
            if after.len() == 0 {
                Some((host, default_port))
            } else if after[0] == ':' {
                match port_number(after.subrange(1, after.len() as int)) {
                    Some(port) => Some((host, port)),
                    None => None,
                }
            } else {
                None
            }
        }
    } else {
        let colon = last_at(authority, ':');
        if colon < 0 || first_at(authority, ':') < colon {
            Some((authority, default_port))
        } else if colon == 0 {
            None
        } else {
            match port_number(authority.subrange(colon + 1, authority.len() as int)) {
                Some(port) => Some((authority.subrange(0, colon), port)),
                None => None,
            }
        }
    }
}

/// The host and the port of an authority.
pub fn split_host_port(authority: &str, default_port: u16) -> (r: Option<(String, u16)>)
    ensures
        match host_and_port(authority@, default_port) {
            Some((host, port)) => r matches Some((h, p)) && h@ == host && p == port,
            None => r is None,
        },
{
    let chars: Vec<char> = chars_of(authority);
    let n: usize = chars.len();
    if n > 0 && chars[0] == '[' {
        let close: usize = find_from(&chars, ']', 1);
        let ghost rest = chars@.subrange(1, n as int);
        if close == n {
            return None;
        }
        let host: String = string_of(&chars, 1, close);
        let ghost after = rest.subrange(close as int, rest.len() as int);
        proof {
            assert(rest.subrange(0, close - 1) =~= chars@.subrange(1, close as int));
            assert(after =~= chars@.subrange(close + 1, n as int));
        }
        if close + 1 == n {
            return Some((host, default_port));
        }
        if chars[close + 1] != ':' {
            return None;
        }
        assert(after.subrange(1, after.len() as int) =~= chars@.subrange(close + 2, n as int));
        return match parse_port(&chars, close + 2) {
            Some(port) => Some((host, port)),
            None => None,
        };
    }
    match find_last(&chars, ':') {
        None => Some((authority.to_owned(), default_port)),
        Some(colon) => {
            assert(chars@.subrange(0, n as int) =~= chars@);
            if find_from(&chars, ':', 0) < colon {
                Some((authority.to_owned(), default_port))
            } else if colon == 0 {
                None
            } else {
                match parse_port(&chars, colon + 1) {
                    Some(port) => Some((string_of(&chars, 0, colon), port)),
                    None => None,
                }
            }
        },
    }
}

/// The text without carriage returns and line feeds at its end.
pub open spec fn without_line_end(s: Seq<char>) -> Seq<char>
    decreases s.len(),
{
    if s.len() > 0 && (s.last() == '\r' || s.last() == '\n') {
        without_line_end(s.drop_last())
    } else {
        s
    }
}

fn trim_line_end(line: &str) -> (r: String)
    ensures
        r@ == without_line_end(line@),
{
    let chars: Vec<char> = chars_of(line);
    let mut to: usize = chars.len();
    assert(chars@.take(to as int) =~= chars@);
    while to > 0 && (chars[to - 1] == '\r' || chars[to - 1] == '\n')
        invariant
            to <= chars.len(),
            without_line_end(chars@) == without_line_end(chars@.take(to as int)),
        decreases to,
    {
        proof {
            let s = chars@.take(to as int);
            assert(s.last() == chars@[to - 1]);
            assert(s.drop_last() =~= chars@.take(to - 1));
        }
        to = to - 1;
    }
    proof {
        let s = chars@.take(to as int);
        if to > 0 {
            assert(s.last() == chars@[to - 1]);
        }
        assert(chars@.subrange(0, to as int) =~= s);
    }
    string_of(&chars, 0, to)
}

/// What an absolute URI asks for, with the method and the version around it.
pub open spec fn http_target(method: Seq<char>, uri: Seq<char>, version: Seq<char>) -> Option<
    TargetView,
> {
    if !begins_with(uri, "http://"@) {
        None
    } else {
        let rest = uri.subrange("http://"@.len() as int, uri.len() as int);
        let slash = first_at(rest, '/');
        let path = if slash < rest.len() {
            rest.subrange(slash, rest.len() as int)
        } else {
            "/"@
        };
        match host_and_port(rest.subrange(0, slash), 80) {
            None => None,
            Some((host, port)) => Some(
                TargetView::Http {
                    host,
                    port,
                    origin_line: method + " "@ + path + " "@ + version + "\r\n"@,
                },
            ),
        }
    }
}

/// What a request line asks for: exactly a method, a URI and an HTTP version,
/// with single spaces between them. None where it is malformed, or where the
/// proxy does not speak the scheme.
pub open spec fn parsed(line: Seq<char>) -> Option<TargetView> {
    let parts = split(without_line_end(line), ' ');
    if parts.len() != 3 || !begins_with(parts[2], "HTTP/"@) {
        None
    } else if same_ignoring_case(parts[0], "CONNECT"@) {
        match host_and_port(parts[1], 443) {
            None => None,
            Some((host, port)) => Some(TargetView::Connect { host, port }),
        }
    } else {
        http_target(parts[0], parts[1], parts[2])
    }
}

fn parse_http(method: &str, uri: &str, version: &str) -> (r: Option<Target>)
    ensures
        match http_target(method@, uri@, version@) {
            Some(target) => r matches Some(t) && t@ == target,
            None => r is None,
        },
{
    let chars: Vec<char> = chars_of(uri);
    if !text_begins_with(&chars, "http://") {
        return None;
    }
    proof {
        reveal_strlit("http://");
    }
    let n: usize = chars.len();
    let slash: usize = find_from(&chars, '/', 7);
    let ghost rest = chars@.subrange(7, n as int);
    let authority: String = string_of(&chars, 7, slash);
    assert(authority@ =~= rest.subrange(0, slash - 7));
    let path: String = if slash < n {
        assert(chars@.subrange(slash as int, n as int) =~= rest.subrange(
            slash - 7,
            rest.len() as int,
        ));
        string_of(&chars, slash, n)
    } else {
        "/".to_owned()
    };
    match split_host_port(authority.as_str(), 80) {
        None => None,
        Some((host, port)) => Some(
            Target::Http {
                host,
                port,
                origin_line: method.to_owned().concat(" ").concat(path.as_str()).concat(
                    " ",
                ).concat(version).concat("\r\n"),
            },
        ),
    }
}

/// What a request line asks for.
pub fn parse_request_line(line: &str) -> (r: Option<Target>)
    ensures
        match parsed(line@) {
            Some(target) => r matches Some(t) && t@ == target,
            None => r is None,
        },
{
    let text: String = trim_line_end(line);
    let parts: Vec<String> = split_text(text.as_str(), ' ');
    assert(views(parts@).len() == parts@.len());
    if parts.len() != 3 {
        return None;
    }
    proof {
        assert(views(parts@)[0] == parts@[0]@);
        assert(views(parts@)[1] == parts@[1]@);
        assert(views(parts@)[2] == parts@[2]@);
    }
    let version: Vec<char> = chars_of(parts[2].as_str());
    if !text_begins_with(&version, "HTTP/") {
        return None;
    }
    let method: Vec<char> = chars_of(parts[0].as_str());
    assert(method@.subrange(0, method@.len() as int) =~= method@);
    if equal_ignoring_case(&method, 0, method.len(), "CONNECT") {
        return match split_host_port(parts[1].as_str(), 443) {
            None => None,
            Some((host, port)) => Some(Target::Connect { host, port }),
        };
    }
    parse_http(parts[0].as_str(), parts[1].as_str(), parts[2].as_str())
}

/// An IP address.
#[derive(Debug, Clone, Copy, PartialEq, Eq)]
pub enum IpAddress {
    /// The four octets of an IPv4 address.
    V4([u8; 4]),
    /// The eight segments of an IPv6 address.
    V6([u16; 8]),
}

/// An address that the proxy may dial.
#[derive(Debug, Clone, Copy, PartialEq, Eq)]
pub struct DialAddress {
    /// The IP address.
    pub ip: IpAddress,
    /// The port.
    pub port: u16,
}

/// The address is on an internal range that the proxy does not reach for its
/// clients: private, link-local, unspecified, broadcast and carrier-grade NAT
/// addresses of IPv4; unspecified, unique-local and link-local addresses of
/// IPv6. Loopback and global addresses are not internal.
pub open spec fn is_internal(ip: IpAddress) -> bool {
    match ip {
        IpAddress::V4(o) => {
            ||| o@[0] == 10
            ||| o@[0] == 172 && 16 <= o@[1] <= 31
            ||| o@[0] == 192 && o@[1] == 168
            ||| o@[0] == 169 && o@[1] == 254
            ||| o@ == seq![0u8, 0, 0, 0]
            ||| o@ == seq![255u8, 255, 255, 255]
            ||| o@[0] == 100 && 64 <= o@[1] <= 127
        },
        IpAddress::V6(s) => {
            ||| s@ == seq![0u16, 0, 0, 0, 0, 0, 0, 0]
            ||| 0xfc00 <= s@[0] <= 0xfdff
            ||| 0xfe80 <= s@[0] <= 0xfebf
        },
    }
}

/// Whether the address is on an internal range.
pub fn is_internal_ip(ip: &IpAddress) -> (r: bool)
    ensures
        r == is_internal(*ip),
{
    match ip {
        IpAddress::V4(o) => {
            let unspecified: bool = o[0] == 0 && o[1] == 0 && o[2] == 0 && o[3] == 0;
            let broadcast: bool = o[0] == 255 && o[1] == 255 && o[2] == 255 && o[3] == 255;
            assert(unspecified == (o@ =~= seq![0u8, 0, 0, 0]));
            assert(broadcast == (o@ =~= seq![255u8, 255, 255, 255]));
            o[0] == 10 || (o[0] == 172 && 16 <= o[1] && o[1] <= 31) || (o[0] == 192 && o[1] == 168)
                || (o[0] == 169 && o[1] == 254) || unspecified || broadcast || (o[0] == 100 && 64
                <= o[1] && o[1] <= 127)
        },
        IpAddress::V6(s) => {
            let unspecified: bool = s[0] == 0 && s[1] == 0 && s[2] == 0 && s[3] == 0 && s[4] == 0
                && s[5] == 0 && s[6] == 0 && s[7] == 0;
            assert(unspecified == (s@ =~= seq![0u16, 0, 0, 0, 0, 0, 0, 0]));
            unspecified || (0xfc00 <= s[0] && s[0] <= 0xfdff) || (0xfe80 <= s[0] && s[0] <= 0xfebf)
        },
    }
}

/// The address, unless it is internal: an allowed name that resolves to an
/// internal address gives no path to it.
pub fn guard_target(addr: DialAddress) -> (r: Result<DialAddress, String>)
    ensures
        match r {
            Ok(a) => !is_internal(addr.ip) && a == addr,
            Err(reason) => is_internal(addr.ip) && reason@
                == "SSRF-guard: refusing to proxy to an internal (non-loopback) address"@,
        },
{
    if is_internal_ip(&addr.ip) {
        Err("SSRF-guard: refusing to proxy to an internal (non-loopback) address".to_owned())
    } else {
        Ok(addr)
    }
}

/// Loopback addresses are never refused.
pub proof fn law_loopback_is_not_internal(o: [u8; 4], s: [u16; 8])
    requires
        o@[0] == 127,
        s@ == seq![0u16, 0, 0, 0, 0, 0, 0, 1],
    ensures
        !is_internal(IpAddress::V4(o)),
        !is_internal(IpAddress::V6(s)),
{
    assert(s@[7] == 1);
    assert(s@[0] == 0);
}

/// A port that a text gives is the port whose decimal notation the text is.
pub proof fn law_a_port_in_decimal_is_that_port(port: u16)
    ensures
        port_number(decimal(port as nat)) == Some(port),
{
    lemma_decimal_value(port as nat);
    let s = decimal(port as nat);
    if s.len() > 0 && s[0] == '+' {
        assert(s.take(1)[0] == '+');
        lemma_digits_grow(s, 1);
        assert(false);
    }
}

proof fn lemma_decimal_value(n: nat)
    ensures
        digits_value(decimal(n)) == Some(n),
        decimal(n).len() > 0,
    decreases n,
{
    assert(digit(n % 10) as int == '0' as int + n % 10);
    if n >= 10 {
        lemma_decimal_value(n / 10);
        assert(decimal(n).drop_last() =~= decimal(n / 10));
        assert(decimal(n).last() == digit(n % 10));
    }
}

} // verus!

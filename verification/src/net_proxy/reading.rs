//! How a request is read, said over the characters of the line.

use vstd::prelude::*;

use crate::net_proxy::request::{
    digits_value, guard_target, is_internal_ip, parse_request_line, port_number, split_host_port,
    without_line_end, DialAddress, IpAddress, Target,
};
use crate::text::laws::{
    denoted, law_only_the_case_of_letters_is_ignored, law_split_pieces_make_the_text,
    law_the_first_place_is_the_first, law_the_last_place_is_the_last,
};
use crate::text::{
    begins_with, first_at, last_at, lemma_first_at, lemma_last_at, lemma_split_concat,
    lemma_split_single, same_ignoring_case, split,
};

verus! {

/// The text is a port in decimal digits.
pub open spec fn is_port(digits: Seq<char>, port: u16) -> bool {
    &&& digits.len() > 0
    &&& forall|k: int| 0 <= k < digits.len() ==> '0' <= #[trigger] digits[k] <= '9'
    &&& denoted(digits) == port
}

/// The text is a port in decimal digits, behind a plus sign or not.
pub open spec fn names_port(text: Seq<char>, port: u16) -> bool {
    is_port(text, port) || (text.len() > 0 && text[0] == '+' && is_port(
        text.subrange(1, text.len() as int),
        port,
    ))
}

proof fn lemma_digits(s: Seq<char>)
    ensures
        digits_value(s) is Some <==> s.len() > 0 && forall|k: int|
            0 <= k < s.len() ==> '0' <= #[trigger] s[k] <= '9',
        digits_value(s) is Some ==> digits_value(s)->0 == denoted(s),
    decreases s.len(),
{
    reveal_with_fuel(Seq::fold_left, 2);
    if s.len() > 0 {
        let front = s.drop_last();
        lemma_digits(front);
        assert(s[s.len() - 1] == s.last());
        assert(denoted(s) == denoted(front) * 10 + (s.last() as int - '0' as int));
        assert forall|k: int| 0 <= k < front.len() implies front[k] == s[k] by {}
        if front.len() == 0 {
            assert(denoted(front) == 0);
        }
        if s.len() > 1 && digits_value(s) is Some {
            assert forall|k: int| 0 <= k < s.len() implies '0' <= #[trigger] s[k] <= '9' by {
                if k < front.len() {
                    assert(front[k] == s[k]);
                }
            }
        }
    }
}

proof fn lemma_port(text: Seq<char>)
    ensures
        forall|p: u16| port_number(text) == Some(p) <==> #[trigger] names_port(text, p),
{
    let digits = if text.len() > 0 && text[0] == '+' {
        text.subrange(1, text.len() as int)
    } else {
        text
    };
    lemma_digits(digits);
    assert forall|p: u16| port_number(text) == Some(p) <==> #[trigger] names_port(text, p) by {
        if text.len() > 0 && text[0] == '+' {
            assert(!is_port(text, p));
        }
        if names_port(text, p) {
            assert(is_port(digits, p));
            assert(digits_value(digits) is Some);
        }
    }
}

/// An authority is read as it is written: a host alone has the default port; a
/// host, a colon and a port have that port, where the port is decimal and within
/// its range; an address in brackets may hold colons. A colon with no host, or
/// brackets that are not closed or have anything else behind them, are refused.
/// Several colons without brackets are an address without a port.
pub proof fn law_an_authority_is_read_as_written(
    authority: &str,
    default_port: u16,
    r: Option<(String, u16)>,
    host: Seq<char>,
    port: Seq<char>,
)
    requires
        call_ensures(split_host_port, (authority, default_port), r),
    ensures
        authority@ == host && !host.contains(':') && (host.len() == 0 || host[0] != '[') ==> r
            is Some && (r->0).0@ == host && (r->0).1 == default_port,
        authority@ == host + seq![':'] + port && !host.contains(':') && !port.contains(':')
            && host.len() > 0 && host[0] != '[' ==> (r is Some ==> (r->0).0@ == host) && forall|
            p: u16,
        |
            (r is Some && (r->0).1 == p) <==> #[trigger] names_port(port, p),
        authority@ == seq![':'] + port && !port.contains(':') ==> r is None,
        (exists|i: int, j: int|
            0 <= i < j < authority@.len() && #[trigger] authority@[i] == ':' && #[trigger]
            authority@[j] == ':') && authority@[0] != '[' ==> r is Some && (r->0).0@ == authority@
            && (r->0).1 == default_port,
        authority@ == seq!['['] + host + seq![']'] && !host.contains(']') ==> r is Some
            && (r->0).0@ == host && (r->0).1 == default_port,
        authority@ == seq!['['] + host + seq![']', ':'] + port && !host.contains(']') ==> (r is Some
            ==> (r->0).0@ == host) && forall|p: u16|
            (r is Some && (r->0).1 == p) <==> #[trigger] names_port(port, p),
        authority@ == seq!['['] + host + seq![']'] + port && !host.contains(']') && port.len() > 0
            && port[0] != ':' ==> r is None,
        authority@.len() > 0 && authority@[0] == '[' && !authority@.contains(']') ==> r is None,
{
    let a = authority@;
    lemma_port(port);
    law_the_first_place_is_the_first(a, ':');
    law_the_last_place_is_the_last(a, ':');
    if a == host + seq![':'] + port && !host.contains(':') && !port.contains(':') && host.len() > 0
        && host[0] != '[' {
        let n = host.len() as int;
        assert(a[n] == ':');
        assert forall|k: int| 0 <= k < n implies a[k] != ':' by {
            assert(host.contains(host[k]));
        }
        assert forall|k: int| n < k < a.len() implies a[k] != ':' by {
            assert(port.contains(port[k - n - 1]));
        }
        lemma_first_at(a, ':', n);
        lemma_last_at(a, ':', n);
        assert(a.subrange(n + 1, a.len() as int) =~= port);
        assert(a.subrange(0, n) =~= host);
        assert(a[0] == host[0]);
    }
    if a == seq![':'] + port && !port.contains(':') {
        assert(a[0] == ':');
        assert forall|k: int| 0 < k < a.len() implies a[k] != ':' by {
            assert(port.contains(port[k - 1]));
        }
        lemma_first_at(a, ':', 0);
        lemma_last_at(a, ':', 0);
    }
    if exists|i: int, j: int|
        0 <= i < j < a.len() && #[trigger] a[i] == ':' && #[trigger] a[j] == ':' {
        let (i, j) = choose|i: int, j: int|
            0 <= i < j < a.len() && #[trigger] a[i] == ':' && #[trigger] a[j] == ':';
        assert(first_at(a, ':') <= i);
        assert(last_at(a, ':') >= j);
    }
    if a.len() > 0 && a[0] == '[' {
        let rest = a.subrange(1, a.len() as int);
        law_the_first_place_is_the_first(rest, ']');
        if !a.contains(']') {
            if rest.contains(']') {
                let k = choose|k: int| 0 <= k < rest.len() && rest[k] == ']';
                assert(a[k + 1] == ']');
            }
        }
    }
    if a == seq!['['] + host + seq![']'] && !host.contains(']') {
        let tail = Seq::<char>::empty();
        assert(a =~= seq!['['] + host + seq![']'] + tail);
        lemma_bracketed(a, host, tail);
    }
    if a == seq!['['] + host + seq![']', ':'] + port && !host.contains(']') {
        let tail = seq![':'] + port;
        assert(a =~= seq!['['] + host + seq![']'] + tail);
        lemma_bracketed(a, host, tail);
        assert(tail.subrange(1, tail.len() as int) =~= port);
        assert(tail[0] == ':');
    }
    if a == seq!['['] + host + seq![']'] + port && !host.contains(']') && port.len() > 0 {
        lemma_bracketed(a, host, port);
    }
}

proof fn lemma_bracketed(a: Seq<char>, host: Seq<char>, tail: Seq<char>)
    requires
        a == seq!['['] + host + seq![']'] + tail,
        !host.contains(']'),
    ensures
        a.len() > 0 && a[0] == '[',
        ({
            let rest = a.subrange(1, a.len() as int);
            let h = host.len() as int;
            &&& first_at(rest, ']') == h
            &&& h < rest.len()
            &&& rest.subrange(0, h) == host
            &&& rest.subrange(h + 1, rest.len() as int) == tail
        }),
{
    let rest = a.subrange(1, a.len() as int);
    let h = host.len() as int;
    assert(rest =~= host + seq![']'] + tail);
    assert(rest[h] == ']');
    assert forall|k: int| 0 <= k < h implies rest[k] != ']' by {
        assert(host.contains(host[k]));
    }
    lemma_first_at(rest, ']', h);
    assert(rest.subrange(0, h) =~= host);
    assert(rest.subrange(h + 1, rest.len() as int) =~= tail);
}

proof fn lemma_line_end(text: Seq<char>, end: Seq<char>)
    requires
        text.len() == 0 || (text.last() != '\r' && text.last() != '\n'),
        forall|k: int| 0 <= k < end.len() ==> #[trigger] end[k] == '\r' || end[k] == '\n',
    ensures
        without_line_end(text + end) == text,
    decreases end.len(),
{
    let whole = text + end;
    if end.len() == 0 {
        assert(whole =~= text);
    } else {
        let less = end.drop_last();
        assert(whole.last() == end[end.len() - 1]);
        assert(whole.drop_last() =~= text + less);
        assert forall|k: int| 0 <= k < less.len() implies #[trigger] less[k] == '\r' || less[k]
            == '\n' by {
            assert(less[k] == end[k]);
        }
        lemma_line_end(text, less);
    }
}

proof fn lemma_line_end_back(line: Seq<char>) -> (end: Seq<char>)
    ensures
        line == without_line_end(line) + end,
        forall|k: int| 0 <= k < end.len() ==> #[trigger] end[k] == '\r' || end[k] == '\n',
    decreases line.len(),
{
    if line.len() > 0 && (line.last() == '\r' || line.last() == '\n') {
        let less = lemma_line_end_back(line.drop_last());
        let end = less.push(line.last());
        let front = line.drop_last();
        assert(line =~= front.push(line.last()));
        assert(without_line_end(line) == without_line_end(front));
        assert(front.push(line.last()) =~= without_line_end(front) + end);
        end
    } else {
        assert(line =~= without_line_end(line) + Seq::<char>::empty());
        Seq::empty()
    }
}

proof fn lemma_three_parts(a: Seq<char>, b: Seq<char>, c: Seq<char>)
    requires
        !a.contains(' ') && !b.contains(' ') && !c.contains(' '),
    ensures
        split(a + seq![' '] + b + seq![' '] + c, ' ') == seq![a, b, c],
{
    assert forall|k: int| 0 <= k < a.len() implies a[k] != ' ' by {
        assert(a.contains(a[k]));
    }
    assert forall|k: int| 0 <= k < b.len() implies b[k] != ' ' by {
        assert(b.contains(b[k]));
    }
    assert forall|k: int| 0 <= k < c.len() implies c[k] != ' ' by {
        assert(c.contains(c[k]));
    }
    lemma_split_single(a, ' ');
    lemma_split_single(b, ' ');
    lemma_split_single(c, ' ');
    lemma_split_concat(a, b, ' ');
    let ab = a.push(' ') + b;
    lemma_split_concat(ab, c, ' ');
    assert(ab.push(' ') + c =~= a + seq![' '] + b + seq![' '] + c);
    assert(seq![a] + seq![b] + seq![c] =~= seq![a, b, c]);
}

/// The text spells CONNECT, in whatever case.
pub open spec fn spells_connect(m: Seq<char>) -> bool {
    &&& m.len() == 7
    &&& m[0] == 'C' || m[0] == 'c'
    &&& m[1] == 'O' || m[1] == 'o'
    &&& m[2] == 'N' || m[2] == 'n'
    &&& m[3] == 'N' || m[3] == 'n'
    &&& m[4] == 'E' || m[4] == 'e'
    &&& m[5] == 'C' || m[5] == 'c'
    &&& m[6] == 'T' || m[6] == 't'
}

proof fn lemma_connect(m: Seq<char>)
    ensures
        same_ignoring_case(m, "CONNECT"@) <==> spells_connect(m),
{
    reveal_strlit("CONNECT");
    let w = "CONNECT"@;
    law_only_the_case_of_letters_is_ignored(m, w);
    if same_ignoring_case(m, w) {
        assert(m[0] == w[0] || m[0] as int == w[0] as int + 32);
        assert(m[1] == w[1] || m[1] as int == w[1] as int + 32);
        assert(m[2] == w[2] || m[2] as int == w[2] as int + 32);
        assert(m[3] == w[3] || m[3] as int == w[3] as int + 32);
        assert(m[4] == w[4] || m[4] as int == w[4] as int + 32);
        assert(m[5] == w[5] || m[5] as int == w[5] as int + 32);
        assert(m[6] == w[6] || m[6] as int == w[6] as int + 32);
    }
}

/// A method, a URI and the digits of a version, written as a line.
pub open spec fn line_of(
    method: Seq<char>,
    uri: Seq<char>,
    version: Seq<char>,
    end: Seq<char>,
) -> Seq<char> {
    method + seq![' '] + uri + seq![' '] + (seq!['H', 'T', 'T', 'P', '/'] + version) + end
}

/// A request line is a method, a URI and a version, with one blank between them
/// and nothing behind them but line ends. A `CONNECT`, in whatever case, asks
/// for a tunnel to its authority, on port 443 where it names none. Any other
/// method with an `http://` URI asks for a forward to the authority before the
/// first slash, on port 80 where it names none, with what follows from that
/// slash on, or `/`, in its line; the method and the version stay as they were
/// sent. Another scheme is refused.
pub proof fn law_a_request_line_is_read_as_written(
    line: &str,
    r: Option<Target>,
    method: Seq<char>,
    uri: &str,
    version: Seq<char>,
    end: Seq<char>,
    tunnel: Option<(String, u16)>,
    authority: &str,
    path: Seq<char>,
    origin: Option<(String, u16)>,
)
    requires
        call_ensures(parse_request_line, (line,), r),
        line@ == line_of(method, uri@, version, end),
        !method.contains(' ') && !uri@.contains(' ') && !version.contains(' '),
        version.len() > 0 ==> version.last() != '\r' && version.last() != '\n',
        forall|k: int| 0 <= k < end.len() ==> #[trigger] end[k] == '\r' || end[k] == '\n',
        call_ensures(split_host_port, (uri, 443u16), tunnel),
        call_ensures(split_host_port, (authority, 80u16), origin),
        !authority@.contains('/'),
        path.len() > 0 ==> path[0] == '/',
    ensures
        spells_connect(method) ==> match tunnel {
            Some((h, p)) => r matches Some(Target::Connect { host, port }) && host@ == h@ && port
                == p,
            None => r is None,
        },
        !spells_connect(method) && uri@ == seq!['h', 't', 't', 'p', ':', '/', '/'] + authority@
            + path ==> match origin {
            Some((h, p)) => r matches Some(Target::Http { host, port, origin_line }) && host@ == h@
                && port == p && origin_line@ == method + seq![' '] + (if path.len() > 0 {
                path
            } else {
                seq!['/']
            }) + seq![' '] + (seq!['H', 'T', 'T', 'P', '/'] + version) + seq!['\r', '\n'],
            None => r is None,
        },
        !spells_connect(method) && !(uri@.len() >= 7 && uri@.take(7) == seq![
            'h',
            't',
            't',
            'p',
            ':',
            '/',
            '/',
        ]) ==> r is None,
{
    reveal_strlit("HTTP/");
    reveal_strlit("http://");
    reveal_strlit("/");
    reveal_strlit(" ");
    reveal_strlit("\r\n");
    let http = seq!['H', 'T', 'T', 'P', '/'];
    let scheme = seq!['h', 't', 't', 'p', ':', '/', '/'];
    assert("HTTP/"@ =~= http);
    assert("http://"@ =~= scheme);
    assert("/"@ =~= seq!['/']);
    assert(" "@ =~= seq![' ']);
    assert("\r\n"@ =~= seq!['\r', '\n']);
    let v = http + version;
    let text = method + seq![' '] + uri@ + seq![' '] + v;
    assert(!v.contains(' ')) by {
        if v.contains(' ') {
            let k = choose|k: int| 0 <= k < v.len() && v[k] == ' ';
            if k >= 5 {
                assert(version.contains(version[k - 5]));
            }
        }
    }
    assert(text.last() == v.last());
    if version.len() > 0 {
        assert(v.last() == version.last());
    } else {
        assert(v.last() == '/');
    }
    lemma_line_end(text, end);
    assert(line@ =~= text + end);
    lemma_three_parts(method, uri@, v);
    let parts = split(text, ' ');
    assert(parts[0] == method && parts[1] == uri@ && parts[2] == v);
    assert(v.subrange(0, 5) =~= http);
    assert(begins_with(v, "HTTP/"@));
    lemma_connect(method);
    if !spells_connect(method) && uri@ == scheme + authority@ + path {
        assert(uri@.subrange(0, 7) =~= scheme);
        let rest = uri@.subrange(7, uri@.len() as int);
        assert(rest =~= authority@ + path);
        let n = authority@.len() as int;
        assert forall|k: int| 0 <= k < n implies rest[k] != '/' by {
            assert(authority@.contains(authority@[k]));
        }
        if path.len() > 0 {
            assert(rest[n] == '/');
        }
        lemma_first_at(rest, '/', n);
        assert(rest.subrange(0, n) =~= authority@);
        if path.len() > 0 {
            assert(rest.subrange(n, rest.len() as int) =~= path);
        }
    }
    if !spells_connect(method) && begins_with(uri@, "http://"@) {
        assert(uri@.take(7) =~= uri@.subrange(0, 7));
    }
}

/// What is read was written so: a line that asks for anything is a method, a
/// URI and a version with one blank between them, and line ends behind.
pub proof fn law_only_a_request_line_is_read(line: &str, r: Option<Target>)
    requires
        call_ensures(parse_request_line, (line,), r),
    ensures
        r is Some ==> exists|method: Seq<char>, uri: Seq<char>, version: Seq<char>, end: Seq<char>|
            line@ == #[trigger] line_of(method, uri, version, end) && !method.contains(' ') && !uri.contains(' ') && !version.contains(
                ' ',
            ) && forall|k: int| 0 <= k < end.len() ==> #[trigger] end[k] == '\r' || end[k] == '\n',
{
    if r is Some {
        reveal_strlit("HTTP/");
        let http = seq!['H', 'T', 'T', 'P', '/'];
        assert("HTTP/"@ =~= http);
        let text = without_line_end(line@);
        let parts = split(text, ' ');
        let end = lemma_line_end_back(line@);
        law_split_pieces_make_the_text(text, ' ');
        let ended = parts.drop_last().map_values(|p: Seq<char>| p.push(' '));
        assert(ended =~= seq![parts[0].push(' '), parts[1].push(' ')]);
        ended.lemma_flatten_and_flatten_alt_are_equivalent();
        assert(ended.drop_last() =~= seq![parts[0].push(' ')]);
        reveal_with_fuel(Seq::flatten_alt, 3);
        assert(ended.flatten() =~= parts[0].push(' ') + parts[1].push(' '));
        let version = parts[2].subrange(5, parts[2].len() as int);
        assert(parts[2] =~= http + version) by {
            assert(parts[2].subrange(0, 5) == http);
        }
        assert(!version.contains(' ')) by {
            if version.contains(' ') {
                let k = choose|k: int| 0 <= k < version.len() && version[k] == ' ';
                assert(parts[2][k + 5] == ' ');
            }
        }
        assert(!parts[0].contains(' ') && !parts[1].contains(' '));
        assert(line@ =~= line_of(parts[0], parts[1], version, end));
    }
}

/// The internal ranges, as numbers: of IPv4 10.0.0.0/8, 100.64.0.0/10,
/// 169.254.0.0/16, 172.16.0.0/12, 192.168.0.0/16, 0.0.0.0 and 255.255.255.255;
/// of IPv6 `::`, fc00::/7 and fe80::/10. An address in them is not dialled, and
/// every other one is, on the port that was asked for.
pub proof fn law_only_internal_addresses_are_refused(
    v4: [u8; 4],
    inside4: bool,
    v6: [u16; 8],
    inside6: bool,
    addr: DialAddress,
    r: Result<DialAddress, String>,
    internal: bool,
)
    requires
        call_ensures(is_internal_ip, (&IpAddress::V4(v4),), inside4),
        call_ensures(is_internal_ip, (&IpAddress::V6(v6),), inside6),
        call_ensures(guard_target, (addr,), r),
        call_ensures(is_internal_ip, (&addr.ip,), internal),
    ensures
        ({
            let n = v4@[0] * 0x1000000 + v4@[1] * 0x10000 + v4@[2] * 0x100 + v4@[3];
            inside4 <==> {
                ||| n == 0
                ||| 0x0a000000 <= n <= 0x0affffff
                ||| 0x64400000 <= n <= 0x647fffff
                ||| 0xa9fe0000 <= n <= 0xa9feffff
                ||| 0xac100000 <= n <= 0xac1fffff
                ||| 0xc0a80000 <= n <= 0xc0a8ffff
                ||| n == 0xffffffff
            }
        }),
        inside6 <==> {
            ||| v6@[0] + v6@[1] + v6@[2] + v6@[3] + v6@[4] + v6@[5] + v6@[6] + v6@[7] == 0
            ||| v6@[0] / 0x200 == 0x7e
            ||| v6@[0] / 0x40 == 0x3fa
        },
        r is Err <==> internal,
        r is Ok ==> r->Ok_0 == addr,
{
    let zeros = seq![0u16, 0, 0, 0, 0, 0, 0, 0];
    if v6@[0] + v6@[1] + v6@[2] + v6@[3] + v6@[4] + v6@[5] + v6@[6] + v6@[7] == 0 {
        assert(v6@ =~= zeros);
    }
    let o = v4@;
    let n = o[0] * 0x1000000 + o[1] * 0x10000 + o[2] * 0x100 + o[3];
    if n == 0 {
        assert(o =~= seq![0u8, 0, 0, 0]);
    }
    if n == 0xffffffff {
        assert(o[0] == 255);
        assert(o[1] == 255);
        assert(o[2] == 255);
        assert(o =~= seq![255u8, 255, 255, 255]);
    }
}

} // verus!

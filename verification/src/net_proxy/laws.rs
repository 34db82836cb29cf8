//! What the proxy promises of every request, said over the characters that go
//! in and come out.

use vstd::prelude::*;

use crate::net_proxy::request::TargetView;
use crate::net_proxy::session::{joined_lines, reaching, Preamble, Requested};
use crate::sets::views;
use crate::text::decimal;

verus! {

proof fn lemma_reaching_lines(lines: Seq<Seq<char>>)
    ensures
        reaching(lines) == lines.filter(
            |l: Seq<char>|
                !(l.len() >= 5 && (l[0] == 'h' || l[0] == 'H') && (l[1] == 'o' || l[1] == 'O') && (
                l[2] == 's' || l[2] == 'S') && (l[3] == 't' || l[3] == 'T') && l[4] == ':'),
        ),
    decreases lines.len(),
{
    reveal(Seq::filter);
    reveal_strlit("host:");
    if lines.len() > 0 {
        lemma_reaching_lines(lines.drop_last());
        let l = lines.last();
        if l.len() >= 5 {
            let head = l.subrange(0, 5);
            assert(head[0] == l[0] && head[1] == l[1] && head[2] == l[2] && head[3] == l[3]
                && head[4] == l[4]);
            assert("host:"@[0] == 'h' && "host:"@[1] == 'o' && "host:"@[2] == 's' && "host:"@[3]
                == 't' && "host:"@[4] == ':');
        }
    }
}

proof fn lemma_joined_lines(lines: Seq<Seq<char>>)
    ensures
        joined_lines(lines) == lines.flatten(),
    decreases lines.len(),
{
    lines.lemma_flatten_and_flatten_alt_are_equivalent();
    if lines.len() > 0 {
        lemma_joined_lines(lines.drop_last());
        lines.drop_last().lemma_flatten_and_flatten_alt_are_equivalent();
    }
}

/// What the origin of a forwarded request is sent: the line in origin form, one
/// host header with the checked host and its port, and each header line of the
/// client, whole and in order, but those whose first characters spell `host:`
/// in either case; then the blank line. The client is sent nothing.
pub proof fn law_a_forwarded_head_loses_nothing_but_the_host(
    requested: &Requested,
    lines: &Vec<String>,
    r: Preamble,
    host: Seq<char>,
    port: u16,
    origin_line: Seq<char>,
)
    requires
        requested@ == (TargetView::Http { host, port, origin_line }),
        call_ensures(Requested::preamble, (requested, lines), r),
    ensures
        r.to_client@ == Seq::<char>::empty(),
        r.to_origin@ == origin_line + "Host: "@ + host + (if port == 80 {
            Seq::empty()
        } else {
            ":"@ + decimal(port as nat)
        }) + "\r\n"@ + lines@.map_values(|l: String| l@).filter(
            |l: Seq<char>|
                !(l.len() >= 5 && (l[0] == 'h' || l[0] == 'H') && (l[1] == 'o' || l[1] == 'O') && (
                l[2] == 's' || l[2] == 'S') && (l[3] == 't' || l[3] == 'T') && l[4] == ':'),
        ).flatten() + "\r\n"@,
{
    let all = views(lines@);
    assert(lines@.map_values(|l: String| l@) =~= all);
    lemma_reaching_lines(all);
    lemma_joined_lines(reaching(all));
    let out = origin_line + "Host: "@ + host + (if port == 80 {
        Seq::empty()
    } else {
        ":"@ + decimal(port as nat)
    }) + "\r\n"@ + reaching(all).flatten() + "\r\n"@;
    assert(r.to_origin@ =~= out);
}

} // verus!

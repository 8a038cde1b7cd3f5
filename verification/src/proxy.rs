//! The request-head rewriting of the local reverse proxy in front of `dsh`.
//!
//! `dsh` guards `/api` with a browser trust fence: a request whose `Origin`
//! is not the server's own authority is refused with 403, and every request
//! must carry the signed `SameSite=Strict; HttpOnly` cookie. A page served
//! from `tauri://localhost` can satisfy neither, but a non-browser client can,
//! so the proxy rewrites each request head before passing the bytes on:
//!
//! ```text
//! front end ──HTTP/WS──▶ proxy ──Host, Origin, Cookie set──▶ dsh (127.0.0.1:<port>)
//! ```
//!
//! After the head, bytes are copied both ways unchanged (a WebSocket after
//! the upgrade is just a byte stream). The sockets are the caller's.

use vstd::prelude::*;
use crate::text::{
    contains, lemma_occurs_concat, lemma_occurs_contains, lemma_occurs_prefix, occurs_at,
    ascii_lower_chars, ascii_lower_seq, chars_of, decimal, decimal_u64, from_utf8_lossy, push_all,
    push_str, split, split_chars, split_once, split_once_chars, string_of, trim, trim_chars, views,
};

verus! {

/// What a proxy session needs to know of the upstream.
pub struct Upstream {
    /// The port `dsh` listens on.
    pub port: u16,
    /// The authorisation cookie, `name=value` without attributes.
    pub cookie: String,
}

/// The upper bound on a request head.
pub const MAX_HEAD_BYTES: usize = 65536;

/// How far the reading of a request head has come.
#[derive(Clone, Copy, Debug, PartialEq, Eq, Structural)]
pub enum HeadProgress {
    /// The head ends with an empty line.
    Complete,
    /// More than `MAX_HEAD_BYTES` without an end: give up.
    TooLarge,
    /// Read another byte.
    More,
}

/// The head read so far ends with `\r\n\r\n`.
pub open spec fn head_ends(head: Seq<u8>) -> bool {
    head.len() >= 4 && head.subrange(head.len() - 4, head.len() as int) == seq![13u8, 10u8, 13u8, 10u8]
}

/// Decides after each byte whether the head is complete.
pub fn head_progress(head: &[u8]) -> (r: HeadProgress)
    ensures
        r == (if head_ends(head@) {
            HeadProgress::Complete
        } else if head@.len() > MAX_HEAD_BYTES {
            HeadProgress::TooLarge
        } else {
            HeadProgress::More
        }),
{
    let n = head.len();
    if n >= 4 && head[n - 4] == 13 && head[n - 3] == 10 && head[n - 2] == 13 && head[n - 1] == 10 {
        assert(head@.subrange(n - 4, n as int) =~= seq![13u8, 10u8, 13u8, 10u8]);
        return HeadProgress::Complete;
    }
    proof {
        if n >= 4 && head_ends(head@) {
            assert(head@.subrange(n - 4, n as int)[0] == head@[n - 4]);
            assert(head@.subrange(n - 4, n as int)[1] == head@[n - 3]);
            assert(head@.subrange(n - 4, n as int)[2] == head@[n - 2]);
            assert(head@.subrange(n - 4, n as int)[3] == head@[n - 1]);
        }
    }
    if n > MAX_HEAD_BYTES {
        HeadProgress::TooLarge
    } else {
        HeadProgress::More
    }
}

/// `127.0.0.1:<port>`, the upstream authority.
pub open spec fn authority_of(port: u16) -> Seq<char> {
    "127.0.0.1:"@ + decimal(port as nat)
}

/// A header line's name, trimmed and lower-cased; `None` without a `:`.
pub open spec fn header_name(line: Seq<char>) -> Option<Seq<char>> {
    match split_once(line, ':') {
        Some((n, v)) => Some(ascii_lower_seq(trim(n))),
        None => None,
    }
}

/// What a header line becomes. Empty lines and lines without `:` are
/// dropped; `Host` and `Origin` point at the upstream; the upstream cookie
/// is put before the cookies the client sent; `Referer` is dropped; any
/// other line passes unchanged.
pub open spec fn rewrite_line(line: Seq<char>, authority: Seq<char>, cookie: Seq<char>) -> Seq<
    char,
> {
    if line.len() == 0 {
        Seq::empty()
    } else {
        match split_once(line, ':') {
            None => Seq::empty(),
            Some((n, v)) => {
                let name = ascii_lower_seq(trim(n));
                if name == "host"@ {
                    "Host: "@ + authority + "\r\n"@
                } else if name == "origin"@ {
                    "Origin: http://"@ + authority + "\r\n"@
                } else if name == "cookie"@ {
                    "Cookie: "@ + cookie + "; "@ + trim(v) + "\r\n"@
                } else if name == "referer"@ {
                    Seq::empty()
                } else {
                    line + "\r\n"@
                }
            },
        }
    }
}

pub open spec fn rewrite_lines(ls: Seq<Seq<char>>, authority: Seq<char>, cookie: Seq<char>) -> Seq<
    char,
>
    decreases ls.len(),
{
    if ls.len() == 0 {
        Seq::empty()
    } else {
        rewrite_lines(ls.drop_last(), authority, cookie) + rewrite_line(ls.last(), authority, cookie)
    }
}

/// A header line other than `Host`, `Origin`, `Cookie` and `Referer`
/// (its name trimmed and lower-cased) passes through unchanged.
pub proof fn lemma_other_headers_unchanged(line: Seq<char>, authority: Seq<char>, cookie: Seq<char>)
    requires
        line.len() > 0,
        header_name(line) matches Some(n) && n != "host"@ && n != "origin"@ && n != "cookie"@ && n
            != "referer"@,
    ensures
        rewrite_line(line, authority, cookie) == line + "\r\n"@,
{
}

/// The rewritten lines of two runs of lines, one after the other.
pub proof fn lemma_rewrite_lines_concat(
    a: Seq<Seq<char>>,
    b: Seq<Seq<char>>,
    authority: Seq<char>,
    cookie: Seq<char>,
)
    ensures
        rewrite_lines(a + b, authority, cookie) == rewrite_lines(a, authority, cookie) + rewrite_lines(
            b,
            authority,
            cookie,
        ),
    decreases b.len(),
{
    if b.len() == 0 {
        assert(a + b =~= a);
        assert(rewrite_lines(a, authority, cookie) + Seq::<char>::empty() =~= rewrite_lines(
            a,
            authority,
            cookie,
        ));
    } else {
        lemma_rewrite_lines_concat(a, b.drop_last(), authority, cookie);
        assert((a + b).drop_last() =~= a + b.drop_last());
        assert((a + b).last() == b.last());
        assert(rewrite_lines(a + b, authority, cookie) =~= rewrite_lines(a, authority, cookie)
            + rewrite_lines(b, authority, cookie));
    }
}

/// Each line's rewriting stands in the rewritten lines at the line's place:
/// after what the lines before it become, before what the lines after it
/// become. So lines that pass through keep their order.
pub proof fn lemma_rewrite_lines_in_order(
    ls: Seq<Seq<char>>,
    i: int,
    authority: Seq<char>,
    cookie: Seq<char>,
)
    requires
        0 <= i < ls.len(),
    ensures
        rewrite_lines(ls, authority, cookie) == rewrite_lines(ls.take(i), authority, cookie)
            + rewrite_line(ls[i], authority, cookie) + rewrite_lines(ls.skip(i + 1), authority, cookie),
{
    let one = seq![ls[i]];
    assert(ls =~= ls.take(i) + one + ls.skip(i + 1));
    lemma_rewrite_lines_concat(ls.take(i) + one, ls.skip(i + 1), authority, cookie);
    lemma_rewrite_lines_concat(ls.take(i), one, authority, cookie);
    assert(one.drop_last() =~= Seq::<Seq<char>>::empty());
    assert(rewrite_lines(one.drop_last(), authority, cookie) == Seq::<char>::empty());
    assert(one.last() == ls[i]);
    assert(Seq::<char>::empty() + rewrite_line(ls[i], authority, cookie) =~= rewrite_line(
        ls[i],
        authority,
        cookie,
    ));
    assert(rewrite_lines(one, authority, cookie) =~= rewrite_line(ls[i], authority, cookie));
}

/// Some non-empty header line among `ls` is named `name`.
pub open spec fn has_header(ls: Seq<Seq<char>>, name: Seq<char>) -> bool {
    exists|i: int| 0 <= i < ls.len() && ls[i].len() > 0 && header_name(#[trigger] ls[i]) == Some(name)
}

/// The rewritten head: the request line, the rewritten header lines, an
/// `Origin` and a `Cookie` for the upstream when the client sent none, and
/// the empty line. The head's bytes are read as lossy UTF-8 and split on
/// `\r\n`.
pub open spec fn rewrite_head_of(head: Seq<u8>, port: u16, cookie: Seq<char>) -> Seq<char> {
    let pieces = split(crate::text::utf8_lossy(head), "\r\n"@);
    let rest = pieces.skip(1);
    let authority = authority_of(port);
    pieces[0] + "\r\n"@ + rewrite_lines(rest, authority, cookie) + (if has_header(rest, "origin"@) {
        Seq::empty()
    } else {
        "Origin: http://"@ + authority + "\r\n"@
    }) + (if has_header(rest, "cookie"@) {
        Seq::empty()
    } else {
        "Cookie: "@ + cookie + "\r\n"@
    }) + "\r\n"@
}

fn rewrite_line_into(
    out: &mut Vec<char>,
    line: &[char],
    authority: &[char],
    cookie: &str,
) -> (r: Option<Vec<char>>)
    ensures
        final(out)@ == old(out)@ + rewrite_line(line@, authority@, cookie@),
        match r {
            Some(name) => line@.len() > 0 && header_name(line@) == Some(name@),
            None => line@.len() == 0 || header_name(line@) is None,
        },
{
    if line.len() == 0 {
        assert(old(out)@ + Seq::<char>::empty() =~= old(out)@);
        return None;
    }
    match split_once_chars(line, ':') {
        None => {
            assert(old(out)@ + Seq::<char>::empty() =~= old(out)@);
            None
        },
        Some((n, v)) => {
            let tn = trim_chars(n.as_slice());
            let name = ascii_lower_chars(tn.as_slice());
            let host = chars_of("host");
            let origin = chars_of("origin");
            let cookie_name = chars_of("cookie");
            let referer = chars_of("referer");
            if crate::text::chars_eq(name.as_slice(), host.as_slice()) {
                push_str(out, "Host: ");
                push_all(out, authority);
                push_str(out, "\r\n");
            } else if crate::text::chars_eq(name.as_slice(), origin.as_slice()) {
                push_str(out, "Origin: http://");
                push_all(out, authority);
                push_str(out, "\r\n");
            } else if crate::text::chars_eq(name.as_slice(), cookie_name.as_slice()) {
                push_str(out, "Cookie: ");
                push_str(out, cookie);
                push_str(out, "; ");
                let tv = trim_chars(v.as_slice());
                push_all(out, tv.as_slice());
                push_str(out, "\r\n");
            } else if crate::text::chars_eq(name.as_slice(), referer.as_slice()) {
                assert(old(out)@ + Seq::<char>::empty() =~= old(out)@);
            } else {
                push_all(out, line);
                push_str(out, "\r\n");
            }
            proof {
                assert(final(out)@ =~= old(out)@ + rewrite_line(line@, authority@, cookie@));
            }
            Some(name)
        },
    }
}

/// The rewritten head for the upstream.
pub fn rewrite_head(head: &[u8], upstream: &Upstream) -> (r: String)
    ensures
        r@ == rewrite_head_of(head@, upstream.port, upstream.cookie@),
{
    let text = from_utf8_lossy(head);
    let cs = chars_of(text.as_str());
    let sep = chars_of("\r\n");
    proof {
        reveal_strlit("\r\n");
    }
    let pieces = split_chars(cs.as_slice(), sep.as_slice());
    proof {
        crate::text::lemma_split_nonempty(cs@, sep@);
    }
    let mut authority: Vec<char> = Vec::new();
    push_str(&mut authority, "127.0.0.1:");
    push_all(&mut authority, decimal_u64(upstream.port as u64).as_slice());
    let ghost all = views(pieces@);
    let ghost rest = all.skip(1);
    let mut out: Vec<char> = Vec::new();
    push_all(&mut out, pieces[0].as_slice());
    push_str(&mut out, "\r\n");
    let ghost start = out@;
    let mut saw_origin = false;
    let mut saw_cookie = false;
    let origin = chars_of("origin");
    let cookie_name = chars_of("cookie");
    let mut k: usize = 1;
    while k < pieces.len()
        invariant
            1 <= k <= pieces@.len(),
            all == views(pieces@),
            rest == all.skip(1),
            origin@ == "origin"@,
            cookie_name@ == "cookie"@,
            out@ == start + rewrite_lines(rest.take(k - 1), authority@, upstream.cookie@),
            saw_origin == has_header(rest.take(k - 1), "origin"@),
            saw_cookie == has_header(rest.take(k - 1), "cookie"@),
        decreases pieces@.len() - k,
    {
        let ghost prev = rest.take(k - 1);
        let ghost line = pieces@[k as int]@;
        let ghost before = out@;
        let name = rewrite_line_into(&mut out, pieces[k].as_slice(), authority.as_slice(), upstream.cookie.as_str());
        proof {
            assert(rest.take(k as int) =~= prev.push(line));
            assert(rest.take(k as int).drop_last() =~= prev);
            assert(out@ =~= start + rewrite_lines(rest.take(k as int), authority@, upstream.cookie@));
        }
        if let Some(n) = name {
            if crate::text::chars_eq(n.as_slice(), origin.as_slice()) {
                saw_origin = true;
            }
            if crate::text::chars_eq(n.as_slice(), cookie_name.as_slice()) {
                saw_cookie = true;
            }
        }
        proof {
            let cur = rest.take(k as int);
            assert(cur[k - 1] == line);
            assert forall|nm: Seq<char>| has_header(cur, nm) == (has_header(prev, nm) || (line.len()
                > 0 && header_name(line) == Some(nm))) by {
                if has_header(prev, nm) {
                    let i = choose|i: int|
                        0 <= i < prev.len() && prev[i].len() > 0 && header_name(#[trigger] prev[i])
                            == Some(nm);
                    assert(cur[i] == prev[i]);
                }
                if has_header(cur, nm) {
                    let i = choose|i: int|
                        0 <= i < cur.len() && cur[i].len() > 0 && header_name(#[trigger] cur[i])
                            == Some(nm);
                    if i < k - 1 {
                        assert(prev[i] == cur[i]);
                    }
                }
            }
            assert(has_header(cur, "origin"@) == (has_header(prev, "origin"@) || (line.len() > 0
                && header_name(line) == Some("origin"@))));
            assert(has_header(cur, "cookie"@) == (has_header(prev, "cookie"@) || (line.len() > 0
                && header_name(line) == Some("cookie"@))));
        }
        k = k + 1;
    }
    assert(rest.take(k - 1) =~= rest);
    let ghost body = out@;
    if !saw_origin {
        push_str(&mut out, "Origin: http://");
        push_all(&mut out, authority.as_slice());
        push_str(&mut out, "\r\n");
    }
    let ghost with_origin = out@;
    if !saw_cookie {
        push_str(&mut out, "Cookie: ");
        push_str(&mut out, upstream.cookie.as_str());
        push_str(&mut out, "\r\n");
    }
    push_str(&mut out, "\r\n");
    proof {
        assert(authority@ =~= authority_of(upstream.port));
        assert(out@ =~= rewrite_head_of(head@, upstream.port, upstream.cookie@));
    }
    string_of(out.as_slice())
}

proof fn lemma_rewrite_lines_has(ls: Seq<Seq<char>>, authority: Seq<char>, cookie: Seq<char>, i: int, pat: Seq<char>)
    requires
        0 <= i < ls.len(),
        occurs_at(rewrite_line(ls[i], authority, cookie), pat, 0),
    ensures
        exists|j: int| occurs_at(rewrite_lines(ls, authority, cookie), pat, j),
    decreases ls.len(),
{
    let last = rewrite_line(ls.last(), authority, cookie);
    let init = rewrite_lines(ls.drop_last(), authority, cookie);
    if i == ls.len() - 1 {
        lemma_occurs_concat(last, init, pat, 0);
        assert(occurs_at(rewrite_lines(ls, authority, cookie), pat, init.len() as int));
    } else {
        assert(ls.drop_last()[i] == ls[i]);
        lemma_rewrite_lines_has(ls.drop_last(), authority, cookie, i, pat);
        let j = choose|j: int| occurs_at(init, pat, j);
        lemma_occurs_concat(init, last, pat, j);
        assert(occurs_at(rewrite_lines(ls, authority, cookie), pat, j));
    }
}

/// Whatever the client sent, the head that reaches `dsh` carries an
/// `Origin` line naming the upstream authority, and a `Cookie` line that
/// starts with the upstream cookie: requests through the proxy pass the
/// trust fence and are authorised.
pub proof fn lemma_head_carries_upstream_credentials(head: Seq<u8>, port: u16, cookie: Seq<char>)
    ensures
        contains(
            rewrite_head_of(head, port, cookie),
            "Origin: http://"@ + authority_of(port) + "\r\n"@,
        ),
        contains(rewrite_head_of(head, port, cookie), "Cookie: "@ + cookie),
{
    reveal_strlit("host");
    reveal_strlit("origin");
    reveal_strlit("cookie");
    let pieces = split(crate::text::utf8_lossy(head), "\r\n"@);
    let rest = pieces.skip(1);
    let authority = authority_of(port);
    let lines_part = rewrite_lines(rest, authority, cookie);
    let origin_extra = if has_header(rest, "origin"@) {
        Seq::<char>::empty()
    } else {
        "Origin: http://"@ + authority + "\r\n"@
    };
    let cookie_extra = if has_header(rest, "cookie"@) {
        Seq::<char>::empty()
    } else {
        "Cookie: "@ + cookie + "\r\n"@
    };
    let front = pieces[0] + "\r\n"@;
    let out = rewrite_head_of(head, port, cookie);
    assert(out == front + lines_part + origin_extra + cookie_extra + "\r\n"@);
    let o = "Origin: http://"@ + authority + "\r\n"@;
    let c = "Cookie: "@ + cookie;
    if has_header(rest, "origin"@) {
        let i = choose|i: int| 0 <= i < rest.len() && rest[i].len() > 0 && header_name(#[trigger] rest[i]) == Some("origin"@);
        assert("origin"@.len() != "host"@.len());
        assert(rewrite_line(rest[i], authority, cookie) == o);
        assert(o.subrange(0, o.len() as int) =~= o);
        lemma_rewrite_lines_has(rest, authority, cookie, i, o);
        let j = choose|j: int| occurs_at(lines_part, o, j);
        lemma_occurs_concat(lines_part, front, o, j);
        lemma_occurs_concat(front + lines_part, origin_extra + cookie_extra + "\r\n"@, o, j + front.len());
        assert(front + lines_part + (origin_extra + cookie_extra + "\r\n"@) =~= out);
        lemma_occurs_contains(out, o, j + front.len());
    } else {
        lemma_occurs_prefix(o, cookie_extra + "\r\n"@);
        lemma_occurs_concat(o + (cookie_extra + "\r\n"@), front + lines_part, o, 0);
        assert((front + lines_part) + (o + (cookie_extra + "\r\n"@)) =~= out);
        lemma_occurs_contains(out, o, (front + lines_part).len() as int);
    }
    if has_header(rest, "cookie"@) {
        let i = choose|i: int| 0 <= i < rest.len() && rest[i].len() > 0 && header_name(#[trigger] rest[i]) == Some("cookie"@);
        assert("cookie"@.len() != "host"@.len());
        assert("cookie"@[0] != "origin"@[0]);
        let rl = rewrite_line(rest[i], authority, cookie);
        assert(rl.subrange(0, c.len() as int) =~= c);
        lemma_rewrite_lines_has(rest, authority, cookie, i, c);
        let j = choose|j: int| occurs_at(lines_part, c, j);
        lemma_occurs_concat(lines_part, front, c, j);
        lemma_occurs_concat(front + lines_part, origin_extra + cookie_extra + "\r\n"@, c, j + front.len());
        assert(front + lines_part + (origin_extra + cookie_extra + "\r\n"@) =~= out);
        lemma_occurs_contains(out, c, j + front.len());
    } else {
        let ce = "Cookie: "@ + cookie + "\r\n"@;
        assert(ce.subrange(0, c.len() as int) =~= c);
        lemma_occurs_concat(ce, "\r\n"@, c, 0);
        lemma_occurs_concat(ce + "\r\n"@, front + lines_part + origin_extra, c, 0);
        assert((front + lines_part + origin_extra) + (ce + "\r\n"@) =~= out);
        lemma_occurs_contains(out, c, (front + lines_part + origin_extra).len() as int);
    }
}

} // verus!

//! The lifecycle of the `dsh` backend process, as decisions on plain values.
//!
//! The backend is started as
//! `dsh --profile dhdesktop --no-open --port 0 --host 127.0.0.1`. With port
//! `0` the system picks a free port, and the child announces it on stdout in
//! exactly one line, `dsh web: http://127.0.0.1:<port>/?token=<token>`, which
//! also carries the access token. Stopping sends SIGTERM to the process
//! group, then SIGKILL after a grace period.
//!
//! Everything that waits, spawns or signals is done by the caller; this
//! module decides what the state becomes on each event and what to do next.

use vstd::prelude::*;
use crate::text::{
    chars_of, decimal_i64, decimal_u64, find, find_chars, from_utf8_lossy, lines, lines_of,
    parse_u32, parse_u32_chars, push_all, push_str, signed_decimal, decimal, slice_chars,
    starts_with, string_of, trim, trim_chars, trim_start, views, ascii_lower_seq, ascii_lower_chars,
    chars_eq, split_once, split_once_chars, contains, occurs_at,
};
use crate::urlparts::{parse_url, url_parse, UrlParts, UrlView};

verus! {

/// The state of the backend, as the front end sees it (a tagged union on `phase`).
pub enum BackendStatus {
    /// Not running.
    Idle,
    /// Starting (initialising the profile and installing its dependencies included).
    Starting { program: String, source: String },
    /// Ready: `url` can be loaded into a window.
    Ready { url: String, port: u16, pid: u32, started_at_ms: u64 },
    /// Being stopped.
    Stopping,
    /// Failed to start (the process did not come up, or timed out).
    Failed { message: String },
    /// Was up, and exited later.
    Exited { code: Option<i32>, message: String },
}

/// A status by its contents.
pub enum StatusView {
    Idle,
    Starting { program: Seq<char>, source: Seq<char> },
    Ready { url: Seq<char>, port: u16, pid: u32, started_at_ms: u64 },
    Stopping,
    Failed { message: Seq<char> },
    Exited { code: Option<i32>, message: Seq<char> },
}

impl View for BackendStatus {
    type V = StatusView;

    open spec fn view(&self) -> StatusView {
        match self {
            BackendStatus::Idle => StatusView::Idle,
            BackendStatus::Starting { program, source } => StatusView::Starting {
                program: program@,
                source: source@,
            },
            BackendStatus::Ready { url, port, pid, started_at_ms } => StatusView::Ready {
                url: url@,
                port: *port,
                pid: *pid,
                started_at_ms: *started_at_ms,
            },
            BackendStatus::Stopping => StatusView::Stopping,
            BackendStatus::Failed { message } => StatusView::Failed { message: message@ },
            BackendStatus::Exited { code, message } => StatusView::Exited {
                code: *code,
                message: message@,
            },
        }
    }
}

impl BackendStatus {
    pub fn is_ready(&self) -> (r: bool)
        ensures
            r == (self@ is Ready),
    {
        match self {
            BackendStatus::Ready { .. } => true,
            _ => false,
        }
    }

    /// The address of the ready backend.
    pub fn ready_url(&self) -> (r: Option<String>)
        ensures
            match self@ {
                StatusView::Ready { url, .. } => r is Some && r->0@ == url,
                _ => r is None,
            },
    {
        match self {
            BackendStatus::Ready { url, .. } => Some(url.clone()),
            _ => None,
        }
    }

    /// A copy with the same contents.
    pub fn copy(&self) -> (r: BackendStatus)
        ensures
            r@ == self@,
    {
        match self {
            BackendStatus::Idle => BackendStatus::Idle,
            BackendStatus::Starting { program, source } => BackendStatus::Starting {
                program: program.clone(),
                source: source.clone(),
            },
            BackendStatus::Ready { url, port, pid, started_at_ms } => BackendStatus::Ready {
                url: url.clone(),
                port: *port,
                pid: *pid,
                started_at_ms: *started_at_ms,
            },
            BackendStatus::Stopping => BackendStatus::Stopping,
            BackendStatus::Failed { message } => BackendStatus::Failed { message: message.clone() },
            BackendStatus::Exited { code, message } => BackendStatus::Exited {
                code: *code,
                message: message.clone(),
            },
        }
    }
}

/// One line of the backend log.
pub struct LogLine {
    pub seq: u64,
    pub stream: String,
    pub text: String,
    pub at_ms: u64,
}

/// A log line by its contents.
pub struct LogView {
    pub seq: u64,
    pub stream: Seq<char>,
    pub text: Seq<char>,
    pub at_ms: u64,
}

impl View for LogLine {
    type V = LogView;

    open spec fn view(&self) -> LogView {
        LogView { seq: self.seq, stream: self.stream@, text: self.text@, at_ms: self.at_ms }
    }
}

impl LogLine {
    /// A copy with the same contents.
    pub fn copy(&self) -> (r: LogLine)
        ensures
            r@ == self@,
    {
        LogLine {
            seq: self.seq,
            stream: self.stream.clone(),
            text: self.text.clone(),
            at_ms: self.at_ms,
        }
    }
}

/// What the ready line announces.
pub struct ReadyInfo {
    pub url: String,
    pub port: u16,
    pub token: String,
}

/// The prefix of the ready line.
pub open spec fn ready_prefix() -> Seq<char> {
    "dsh web: "@
}

/// The value of the first query pair named `token`.
pub open spec fn token_of(pairs: Seq<(Seq<char>, Seq<char>)>) -> Option<Seq<char>>
    decreases pairs.len(),
{
    if pairs.len() == 0 {
        None
    } else if pairs[0].0 == "token"@ {
        Some(pairs[0].1)
    } else {
        token_of(pairs.drop_first())
    }
}

/// The ready line, read: after the first `dsh web: ` comes, trimmed, a URL
/// that parses, carries an explicit port and a `token` query pair. Any
/// other line is plain log output.
pub open spec fn ready_line_of(line: Seq<char>) -> Option<(Seq<char>, u16, Seq<char>)> {
    match find(line, ready_prefix()) {
        None => None,
        Some(i) => {
            let raw = trim(line.subrange(i + ready_prefix().len(), line.len() as int));
            match url_parse(raw) {
                Some(u) => match (u.port, token_of(u.query_pairs)) {
                    (Some(port), Some(token)) => Some((raw, port, token)),
                    _ => None,
                },
                None => None,
            }
        },
    }
}

fn token_in(pairs: &Vec<(String, String)>) -> (r: Option<String>)
    ensures
        opt_str_view(r) == token_of(crate::urlparts::pair_views(pairs@)),
{
    let key = chars_of("token");
    let mut k: usize = 0;
    let ghost all = crate::urlparts::pair_views(pairs@);
    assert(all.skip(0) =~= all);
    while k < pairs.len()
        invariant
            k <= pairs@.len(),
            key@ == "token"@,
            all == crate::urlparts::pair_views(pairs@),
            token_of(all) == token_of(all.skip(k as int)),
        decreases pairs@.len() - k,
    {
        proof {
            assert(all.skip(k as int).drop_first() =~= all.skip(k + 1));
            assert(all.skip(k as int)[0] == (pairs@[k as int].0@, pairs@[k as int].1@));
        }
        let name = chars_of(pairs[k].0.as_str());
        if chars_eq(name.as_slice(), key.as_slice()) {
            return Some(pairs[k].1.clone());
        }
        k = k + 1;
    }
    None
}

pub open spec fn opt_str_view(o: Option<String>) -> Option<Seq<char>> {
    match o {
        Some(s) => Some(s@),
        None => None,
    }
}

/// Reads `dsh web: http://127.0.0.1:57710/?token=xxx`.
pub fn parse_ready_line(line: &str) -> (r: Option<ReadyInfo>)
    ensures
        match r {
            Some(info) => ready_line_of(line@) == Some((info.url@, info.port, info.token@)),
            None => ready_line_of(line@) is None,
        },
{
    let cs = chars_of(line);
    let prefix = chars_of("dsh web: ");
    let idx = match find_chars(cs.as_slice(), prefix.as_slice()) {
        Some(i) => i,
        None => return None,
    };
    proof {
        crate::text::lemma_find_from_bounds(cs@, prefix@, 0);
        assert(occurs_at(cs@, prefix@, idx as int));
    }
    let n = cs.len();
    let rest = slice_chars(cs.as_slice(), idx + prefix.len(), n);
    let raw_cs = trim_chars(rest.as_slice());
    let raw = string_of(raw_cs.as_slice());
    let parsed = match parse_url(raw.as_str()) {
        Some(u) => u,
        None => return None,
    };
    ready_info_from(raw, &parsed)
}

/// What a parsed ready address `raw` announces: its explicit port and the
/// value of its first `token` query pair, when it carries both.
pub fn ready_info_from(raw: String, parsed: &UrlParts) -> (r: Option<ReadyInfo>)
    ensures
        match r {
            Some(info) => {
                &&& info.url@ == raw@
                &&& parsed@.port == Some(info.port)
                &&& token_of(parsed@.query_pairs) == Some(info.token@)
            },
            None => parsed@.port is None || token_of(parsed@.query_pairs) is None,
        },
{
    let port = match parsed.port {
        Some(p) => p,
        None => return None,
    };
    let token = match token_in(&parsed.query_pairs) {
        Some(t) => t,
        None => return None,
    };
    Some(ReadyInfo { url: raw, port, token })
}

/// The value of an ASCII hexadecimal digit (either case).
pub open spec fn hex_value(b: u8) -> Option<u8> {
    if 48 <= b <= 57 {
        Some((b - 48) as u8)
    } else if 97 <= b <= 102 {
        Some((b - 87) as u8)
    } else if 65 <= b <= 70 {
        Some((b - 55) as u8)
    } else {
        None
    }
}

/// What `u8::from_str_radix(from_utf8(&[b1, b2]).unwrap_or(""), 16)` gives:
/// two hex digits, or `+` and one hex digit; anything else fails.
pub open spec fn hex_pair(b1: u8, b2: u8) -> Option<u8> {
    if b1 == 43 {
        hex_value(b2)
    } else {
        match (hex_value(b1), hex_value(b2)) {
            (Some(h), Some(l)) => Some((h * 16 + l) as u8),
            _ => None,
        }
    }
}

fn hex_value_of(b: u8) -> (r: Option<u8>)
    ensures
        r == hex_value(b),
{
    if 48 <= b && b <= 57 {
        Some(b - 48)
    } else if 97 <= b && b <= 102 {
        Some(b - 87)
    } else if 65 <= b && b <= 70 {
        Some(b - 55)
    } else {
        None
    }
}

fn hex_pair_of(b1: u8, b2: u8) -> (r: Option<u8>)
    ensures
        r == hex_pair(b1, b2),
{
    if b1 == 43 {
        hex_value_of(b2)
    } else {
        match (hex_value_of(b1), hex_value_of(b2)) {
            (Some(h), Some(l)) => Some(h * 16 + l),
            _ => None,
        }
    }
}

/// The bytes from index `i` on with `%XX` escapes and `+` decoded; a `%`
/// that is not followed by two more bytes, or by a pair that does not read
/// as hex, is kept as it is.
pub open spec fn percent_decoded_from(b: Seq<u8>, i: int) -> Seq<u8>
    decreases b.len() - i,
{
    if i < 0 || i >= b.len() {
        Seq::empty()
    } else if b[i] == 37 && i + 2 < b.len() {
        match hex_pair(b[i + 1], b[i + 2]) {
            Some(x) => seq![x] + percent_decoded_from(b, i + 3),
            None => seq![b[i]] + percent_decoded_from(b, i + 1),
        }
    } else if b[i] == 43 {
        seq![32u8] + percent_decoded_from(b, i + 1)
    } else {
        seq![b[i]] + percent_decoded_from(b, i + 1)
    }
}

/// The decoded text of `input`: its UTF-8 bytes decoded as above, then read
/// back as UTF-8 with invalid sequences replaced.
pub open spec fn percent_decode_of(input: Seq<char>) -> Seq<char> {
    crate::text::utf8_lossy(percent_decoded_from(vstd::utf8::encode_utf8(input), 0))
}

proof fn lemma_scalar_bytes(u: u32)
    ensures
        u < 0x80 ==> (u & 0x7F) as u8 == u,
        forall|y: u8| #![trigger (0x80u8 | y)] (0x80u8 | y) >= 0x80,
{
    assert(u < 0x80 ==> (u & 0x7F) as u8 == u) by (bit_vector);
    assert(forall|y: u8| #![trigger (0x80u8 | y)] (0x80u8 | y) >= 0x80) by (bit_vector);
}

proof fn lemma_high_bytes(y: u8)
    ensures
        (0xC0u8 | y) >= 0x80,
        (0xE0u8 | y) >= 0x80,
        (0xF0u8 | y) >= 0x80,
        (0x80u8 | y) >= 0x80,
{
    assert((0xC0u8 | y) >= 0x80) by (bit_vector);
    assert((0xE0u8 | y) >= 0x80) by (bit_vector);
    assert((0xF0u8 | y) >= 0x80) by (bit_vector);
    assert((0x80u8 | y) >= 0x80) by (bit_vector);
}

/// Text without `%` and `+` encodes to bytes without them.
proof fn lemma_encode_plain(s: Seq<char>)
    requires
        !s.contains('%'),
        !s.contains('+'),
    ensures
        forall|i: int|
            0 <= i < vstd::utf8::encode_utf8(s).len() ==> (#[trigger] vstd::utf8::encode_utf8(s)[i])
                != 37 && vstd::utf8::encode_utf8(s)[i] != 43,
    decreases s.len(),
{
    if s.len() > 0 {
        let rest = s.drop_first();
        assert forall|c: char| rest.contains(c) implies s.contains(c) by {
            let j = choose|j: int| 0 <= j < rest.len() && rest[j] == c;
            assert(s[j + 1] == c);
        }
        lemma_encode_plain(rest);
        let u = s[0] as u32;
        let head = vstd::utf8::encode_scalar(u);
        assert(s.contains(s[0]));
        lemma_scalar_bytes(u);
        lemma_high_bytes(((u >> 6) & 0x1F) as u8);
        lemma_high_bytes(((u >> 12) & 0x0F) as u8);
        lemma_high_bytes(((u >> 18) & 0x7) as u8);
        lemma_high_bytes((u & 0x3F) as u8);
        lemma_high_bytes(((u >> 6) & 0x3F) as u8);
        lemma_high_bytes(((u >> 12) & 0x3F) as u8);
        if u < 0x80 {
            assert(s[0] != '%' && s[0] != '+');
            vstd::utf8::char_u32_cast(s[0], u);
            assert(u != 37 && u != 43);
            assert(head[0] == (u & 0x7F) as u8);
            assert(head[0] == u);
            assert(head.len() == 1);
            assert(head[0] != 37 && head[0] != 43);
            assert(forall|i: int| 0 <= i < head.len() ==> #[trigger] head[i] == head[0]);
        } else if vstd::utf8::has_width_2_encoding(u) {
            assert(head[0] >= 0x80 && head[1] >= 0x80);
            assert(head.len() == 2);
            assert(forall|i: int| 0 <= i < head.len() ==> head[i] >= 0x80);
        } else if vstd::utf8::has_width_3_encoding(u) {
            assert(head[0] >= 0x80 && head[1] >= 0x80 && head[2] >= 0x80);
            assert(head.len() == 3);
            assert(forall|i: int| 0 <= i < head.len() ==> head[i] >= 0x80);
        } else {
            assert(head[0] >= 0x80 && head[1] >= 0x80 && head[2] >= 0x80 && head[3] >= 0x80);
            assert(head.len() == 4);
            assert(forall|i: int| 0 <= i < head.len() ==> head[i] >= 0x80);
        }
        assert(forall|i: int| 0 <= i < head.len() ==> head[i] != 37 && head[i] != 43);
        let e = vstd::utf8::encode_utf8(s);
        assert(e == head + vstd::utf8::encode_utf8(rest));
        assert forall|i: int| 0 <= i < e.len() implies (#[trigger] e[i]) != 37 && e[i] != 43 by {
            if i < head.len() {
                assert(e[i] == head[i]);
            } else {
                assert(e[i] == vstd::utf8::encode_utf8(rest)[i - head.len()]);
            }
        }
    }
}

/// Bytes without `%` and `+` decode to themselves.
proof fn lemma_decoded_plain(b: Seq<u8>, i: int)
    requires
        0 <= i <= b.len(),
        forall|j: int| 0 <= j < b.len() ==> (#[trigger] b[j]) != 37 && b[j] != 43,
    ensures
        percent_decoded_from(b, i) == b.skip(i),
    decreases b.len() - i,
{
    if i < b.len() {
        lemma_decoded_plain(b, i + 1);
        assert(seq![b[i]] + b.skip(i + 1) =~= b.skip(i));
    } else {
        assert(b.skip(i) =~= Seq::<u8>::empty());
    }
}

/// Decodes `%XX` and `+` only; enough to read a report text.
pub fn percent_decode(input: &str) -> (r: String)
    ensures
        r@ == percent_decode_of(input@),
        !input@.contains('%') && !input@.contains('+') ==> r@ == input@,
{
    let bytes = input.as_bytes();
    let n = bytes.len();
    let mut out: Vec<u8> = Vec::new();
    let mut i: usize = 0;
    while i < n
        invariant
            n == bytes@.len(),
            i <= n,
            out@ + percent_decoded_from(bytes@, i as int) == percent_decoded_from(bytes@, 0),
        decreases n - i,
    {
        let ghost before = out@;
        if bytes[i] == 37 && n - i > 2 {
            match hex_pair_of(bytes[i + 1], bytes[i + 2]) {
                Some(x) => {
                    out.push(x);
                    proof {
                        assert(out@ + percent_decoded_from(bytes@, i + 3) =~= before
                            + percent_decoded_from(bytes@, i as int));
                    }
                    i = i + 3;
                },
                None => {
                    out.push(bytes[i]);
                    proof {
                        assert(out@ + percent_decoded_from(bytes@, i + 1) =~= before
                            + percent_decoded_from(bytes@, i as int));
                    }
                    i = i + 1;
                },
            }
        } else if bytes[i] == 43 {
            out.push(32);
            proof {
                assert(out@ + percent_decoded_from(bytes@, i + 1) =~= before
                    + percent_decoded_from(bytes@, i as int));
            }
            i = i + 1;
        } else {
            out.push(bytes[i]);
            proof {
                assert(out@ + percent_decoded_from(bytes@, i + 1) =~= before
                    + percent_decoded_from(bytes@, i as int));
            }
            i = i + 1;
        }
    }
    assert(percent_decoded_from(bytes@, i as int) =~= Seq::<u8>::empty());
    assert(out@ =~= percent_decoded_from(bytes@, 0));
    proof {
        if !input@.contains('%') && !input@.contains('+') {
            lemma_encode_plain(input@);
            lemma_decoded_plain(bytes@, 0);
            assert(bytes@.skip(0) =~= bytes@);
            vstd::utf8::encode_utf8_valid_utf8(input@);
            vstd::utf8::encode_utf8_decode_utf8(input@);
        }
    }
    from_utf8_lossy(out.as_slice())
}

/// The text of `s` before its first `c` (`s.split(c).next()`).
pub open spec fn before_char(s: Seq<char>, c: char) -> Seq<char> {
    s.subrange(0, crate::text::next_index_of(s, c, 0))
}

/// A response header line, read for a cookie: `None` when it is not a
/// `Set-Cookie:` line (any case, after leading whitespace); otherwise the
/// trimmed `name` and `value` of its first `name=value` pair, or `None`
/// inside when that pair has no `=`.
pub open spec fn set_cookie_line(line: Seq<char>) -> Option<Option<(Seq<char>, Seq<char>)>> {
    let t = trim_start(line);
    if t.len() > 11 && ascii_lower_seq(t.subrange(0, 11)) == "set-cookie:"@ {
        let pair = trim(before_char(t.subrange(11, t.len() as int), ';'));
        match split_once(pair, '=') {
            Some((n, v)) => Some(Some((trim(n), trim(v)))),
            None => Some(None),
        }
    } else {
        None
    }
}

/// The first `Set-Cookie` line decides.
pub open spec fn cookie_in_lines(ls: Seq<Seq<char>>) -> Option<(Seq<char>, Seq<char>)>
    decreases ls.len(),
{
    if ls.len() == 0 {
        None
    } else {
        match set_cookie_line(ls[0]) {
            Some(x) => x,
            None => cookie_in_lines(ls.drop_first()),
        }
    }
}

/// The cookie an HTTP response sets, read from its bytes as lossy UTF-8.
pub open spec fn cookie_of_response(raw: Seq<u8>) -> Option<(Seq<char>, Seq<char>)> {
    cookie_in_lines(lines(crate::text::utf8_lossy(raw)))
}

fn trim_start_chars(s: &[char]) -> (r: Vec<char>)
    ensures
        r@ == trim_start(s@),
{
    let mut i: usize = 0;
    assert(s@.subrange(0, s@.len() as int) =~= s@);
    while i < s.len() && crate::text::white_space(s[i])
        invariant
            i <= s@.len(),
            trim_start(s@) == trim_start(s@.subrange(i as int, s@.len() as int)),
        decreases s@.len() - i,
    {
        proof {
            assert(s@.subrange(i as int, s@.len() as int).drop_first() =~= s@.subrange(
                i + 1,
                s@.len() as int,
            ));
        }
        i = i + 1;
    }
    slice_chars(s, i, s.len())
}

fn set_cookie_in_line(line: &[char]) -> (r: Option<Option<(String, String)>>)
    ensures
        match r {
            None => set_cookie_line(line@) is None,
            Some(None) => set_cookie_line(line@) == Some(None::<(Seq<char>, Seq<char>)>),
            Some(Some((n, v))) => set_cookie_line(line@) == Some(Some((n@, v@))),
        },
{
    let t = trim_start_chars(line);
    if t.len() <= 11 {
        return None;
    }
    let head = slice_chars(t.as_slice(), 0, 11);
    let lower = ascii_lower_chars(head.as_slice());
    let key = chars_of("set-cookie:");
    if !chars_eq(lower.as_slice(), key.as_slice()) {
        return None;
    }
    let after = slice_chars(t.as_slice(), 11, t.len());
    let mut e: usize = 0;
    while e < after.len() && after[e] != ';'
        invariant
            e <= after@.len(),
            crate::text::next_index_of(after@, ';', 0) == crate::text::next_index_of(
                after@,
                ';',
                e as int,
            ),
        decreases after@.len() - e,
    {
        e = e + 1;
    }
    let first = slice_chars(after.as_slice(), 0, e);
    let pair = trim_chars(first.as_slice());
    match split_once_chars(pair.as_slice(), '=') {
        Some((n, v)) => {
            let name = trim_chars(n.as_slice());
            let value = trim_chars(v.as_slice());
            Some(Some((string_of(name.as_slice()), string_of(value.as_slice()))))
        },
        None => Some(None),
    }
}

/// The name and value of the cookie that an HTTP response sets. Only the
/// `name=value` is kept; the attributes are decided by whoever injects it.
pub fn cookie_from_response(raw: &[u8]) -> (r: Option<(String, String)>)
    ensures
        match r {
            Some((n, v)) => cookie_of_response(raw@) == Some((n@, v@)),
            None => cookie_of_response(raw@) is None,
        },
{
    let text = from_utf8_lossy(raw);
    let cs = chars_of(text.as_str());
    let ls = lines_of(cs.as_slice());
    let ghost all = views(ls@);
    let mut k: usize = 0;
    assert(all.skip(0) =~= all);
    while k < ls.len()
        invariant
            k <= ls@.len(),
            all == views(ls@),
            all == lines(cs@),
            cookie_of_response(raw@) == cookie_in_lines(all.skip(k as int)),
        decreases ls@.len() - k,
    {
        proof {
            assert(all.skip(k as int).drop_first() =~= all.skip(k + 1));
            assert(all.skip(k as int)[0] == ls@[k as int]@);
        }
        match set_cookie_in_line(ls[k].as_slice()) {
            Some(found) => {
                return found;
            },
            None => {},
        }
        k = k + 1;
    }
    None
}

/// The token exchange request: where to connect and what to send.
pub struct ExchangeRequest {
    pub host: String,
    pub port: u16,
    pub request: String,
}

/// The request line target: the path, then `?` and the query when there is one.
pub open spec fn target_of(u: UrlView) -> Seq<char> {
    match u.query {
        Some(q) => u.path + seq!['?'] + q,
        None => u.path,
    }
}

/// A minimal `GET` of the token URL, without an `Origin` header (the trust
/// fence lets clients without one through). Needs a host and an explicit port.
pub open spec fn exchange_of(u: UrlView) -> Option<(Seq<char>, u16, Seq<char>)> {
    match (u.host, u.port) {
        (Some(h), Some(p)) => Some(
            (
                h,
                p,
                "GET "@ + target_of(u) + " HTTP/1.1\r\nHost: "@ + h + seq![':'] + decimal(p as nat)
                    + "\r\nConnection: close\r\n\r\n"@,
            ),
        ),
        _ => None,
    }
}

pub fn exchange_request(u: &UrlParts) -> (r: Option<ExchangeRequest>)
    ensures
        match r {
            Some(x) => exchange_of(u@) == Some((x.host@, x.port, x.request@)),
            None => exchange_of(u@) is None,
        },
{
    let host = match &u.host {
        Some(h) => h,
        None => return None,
    };
    let port = match u.port {
        Some(p) => p,
        None => return None,
    };
    let mut req: Vec<char> = Vec::new();
    push_str(&mut req, "GET ");
    push_str(&mut req, u.path.as_str());
    if let Some(q) = &u.query {
        req.push('?');
        push_str(&mut req, q.as_str());
    }
    push_str(&mut req, " HTTP/1.1\r\nHost: ");
    push_str(&mut req, host.as_str());
    req.push(':');
    let digits = decimal_u64(port as u64);
    push_all(&mut req, digits.as_slice());
    push_str(&mut req, "\r\nConnection: close\r\n\r\n");
    proof {
        assert(req@ =~= "GET "@ + target_of(u@) + " HTTP/1.1\r\nHost: "@ + host@ + seq![':']
            + decimal(port as nat) + "\r\nConnection: close\r\n\r\n"@);
    }
    Some(ExchangeRequest { host: host.clone(), port, request: string_of(req.as_slice()) })
}

/// What the pid file holds for a process group: its id in decimal.
pub fn pidfile_text(pgid: u32) -> (r: String)
    ensures
        r@ == decimal(pgid as nat),
{
    let d = decimal_u64(pgid as u64);
    string_of(d.as_slice())
}

/// The process group recorded in a pid file: the trimmed text read as `u32`.
pub open spec fn pidfile_pgid(text: Seq<char>) -> Option<u32> {
    parse_u32(trim(text))
}

pub fn parse_pidfile(text: &str) -> (r: Option<u32>)
    ensures
        r == pidfile_pgid(text@),
{
    let cs = chars_of(text);
    let t = trim_chars(cs.as_slice());
    parse_u32_chars(t.as_slice())
}

proof fn lemma_decimal_trimmed(n: nat)
    ensures
        trim(decimal(n)) == decimal(n),
{
    crate::text::lemma_decimal_digits(n);
    let d = decimal(n);
    assert(crate::text::is_digit(d[0]));
    assert(crate::text::is_digit(d.last()));
    assert(!crate::text::is_white_space(d[0]));
    assert(trim_start(d) == d);
    assert(!crate::text::is_white_space(d.last()));
}

/// What is written to the pid file reads back as the same process group.
pub proof fn lemma_pidfile_roundtrip(pgid: u32)
    ensures
        pidfile_pgid(decimal(pgid as nat)) == Some(pgid),
{
    lemma_decimal_trimmed(pgid as nat);
    crate::text::lemma_parse_decimal(pgid);
}

/// The pids that `pgrep -g` printed: every line that, trimmed, reads as a `u32`.
pub open spec fn pids_in_lines(ls: Seq<Seq<char>>) -> Seq<u32>
    decreases ls.len(),
{
    if ls.len() == 0 {
        Seq::empty()
    } else {
        let rest = pids_in_lines(ls.drop_last());
        match parse_u32(trim(ls.last())) {
            Some(p) => rest.push(p),
            None => rest,
        }
    }
}

pub open spec fn group_pids_of(out: Seq<u8>) -> Seq<u32> {
    pids_in_lines(lines(crate::text::utf8_lossy(out)))
}

pub fn group_pids_from(out: &[u8]) -> (r: Vec<u32>)
    ensures
        r@ == group_pids_of(out@),
{
    let text = from_utf8_lossy(out);
    let cs = chars_of(text.as_str());
    let ls = lines_of(cs.as_slice());
    let mut r: Vec<u32> = Vec::new();
    let mut k: usize = 0;
    while k < ls.len()
        invariant
            k <= ls@.len(),
            views(ls@) == lines(cs@),
            r@ == pids_in_lines(views(ls@).take(k as int)),
        decreases ls@.len() - k,
    {
        proof {
            assert(views(ls@).take(k + 1).drop_last() =~= views(ls@).take(k as int));
        }
        let t = trim_chars(ls[k].as_slice());
        if let Some(p) = parse_u32_chars(t.as_slice()) {
            r.push(p);
        }
        k = k + 1;
    }
    assert(views(ls@).take(k as int) =~= views(ls@));
    r
}

/// The pids in decimal, separated by commas.
pub open spec fn comma_list(p: Seq<u32>) -> Seq<char>
    decreases p.len(),
{
    if p.len() == 0 {
        Seq::empty()
    } else if p.len() == 1 {
        decimal(p[0] as nat)
    } else {
        comma_list(p.drop_last()) + seq![','] + decimal(p.last() as nat)
    }
}

pub fn comma_list_of(p: &Vec<u32>) -> (r: String)
    ensures
        r@ == comma_list(p@),
{
    let mut out: Vec<char> = Vec::new();
    let mut k: usize = 0;
    while k < p.len()
        invariant
            k <= p@.len(),
            out@ == comma_list(p@.take(k as int)),
        decreases p@.len() - k,
    {
        proof {
            assert(p@.take(k + 1).drop_last() =~= p@.take(k as int));
        }
        if k > 0 {
            out.push(',');
        }
        let d = decimal_u64(p[k] as u64);
        push_all(&mut out, d.as_slice());
        proof {
            if k == 0 {
                assert(out@ =~= decimal(p@[0] as nat));
            }
        }
        k = k + 1;
    }
    assert(p@.take(k as int) =~= p@);
    string_of(out.as_slice())
}

/// Whether the `ps` listing shows a process of this client's profile.
pub open spec fn listing_is_ours_of(listing: Seq<u8>) -> bool {
    exists|i: int|
        0 <= i < lines(crate::text::utf8_lossy(listing)).len() && contains(
            #[trigger] lines(crate::text::utf8_lossy(listing))[i],
            "--profile"@,
        ) && contains(lines(crate::text::utf8_lossy(listing))[i], crate::paths::PROFILE_NAME@)
}

pub fn listing_is_ours(listing: &[u8]) -> (r: bool)
    ensures
        r == listing_is_ours_of(listing@),
{
    let text = from_utf8_lossy(listing);
    let cs = chars_of(text.as_str());
    let ls = lines_of(cs.as_slice());
    let flag = chars_of("--profile");
    let name = chars_of(crate::paths::PROFILE_NAME);
    let ghost all = lines(crate::text::utf8_lossy(listing@));
    let mut k: usize = 0;
    while k < ls.len()
        invariant
            k <= ls@.len(),
            views(ls@) == all,
            all == lines(crate::text::utf8_lossy(listing@)),
            flag@ == "--profile"@,
            name@ == crate::paths::PROFILE_NAME@,
            forall|m: int|
                0 <= m < k ==> !(contains(#[trigger] all[m], "--profile"@) && contains(
                    all[m],
                    crate::paths::PROFILE_NAME@,
                )),
        decreases ls@.len() - k,
    {
        let a = find_chars(ls[k].as_slice(), flag.as_slice()).is_some();
        let b = find_chars(ls[k].as_slice(), name.as_slice()).is_some();
        if a && b {
            assert(all[k as int] == ls@[k as int]@);
            assert(contains(lines(crate::text::utf8_lossy(listing@))[k as int], "--profile"@));
            assert(contains(
                lines(crate::text::utf8_lossy(listing@))[k as int],
                crate::paths::PROFILE_NAME@,
            ));
            return true;
        }
        assert(all[k as int] == ls@[k as int]@);
        k = k + 1;
    }
    false
}

/// How far the cleanup of a backend left behind by a crash has come.
pub enum CleanupState {
    /// Nothing read yet.
    Begin,
    /// The pid file named this process group.
    Recorded { pgid: u32 },
    /// The group is still alive.
    Alive { pgid: u32 },
    /// The group has these many processes; their command lines are wanted.
    Listed { pgid: u32, count: usize },
    /// The group is ours and is being terminated.
    Terminating { pgid: u32, count: usize },
    /// Done.
    Finished,
}

/// What the caller observed.
pub enum CleanupEvent {
    /// The pid file's text, `None` when it could not be read.
    PidfileRead(Option<String>),
    /// Whether a signal 0 to the group found a live process.
    GroupAlive(bool),
    /// What `pgrep -g <pgid>` printed.
    GroupListed(Vec<u8>),
    /// What `ps -o command= -p <pids>` printed, `None` when it could not run.
    CommandsListed(Option<Vec<u8>>),
    /// The group was sent SIGTERM, waited for, and killed if it lingered.
    Terminated,
}

/// What the caller is to do next.
pub enum CleanupAction {
    /// Stop here, removing the pid file first when `clear_pidfile`.
    Finish { clear_pidfile: bool },
    /// Send signal 0 to the group to see whether it lives.
    CheckGroup { pgid: u32 },
    /// List the group's processes with `pgrep -g`.
    ListGroup { pgid: u32 },
    /// List the command lines of these comma-separated pids with `ps`.
    ListCommands { pids: String },
    /// SIGTERM the group, wait up to 5 seconds, then SIGKILL it if it lingers.
    TerminateGroup { pgid: u32 },
    /// Remove the pid file and log this line.
    Report { message: String },
}

/// The log line after a cleanup.
pub open spec fn cleanup_message_of(pgid: u32, count: nat) -> Seq<char> {
    "已清理上次遗留的 dsh 后端(进程组 "@ + decimal(pgid as nat) + ","@ + decimal(count)
        + " 个进程)"@
}

/// One step of the cleanup.
///
/// A group is only ever terminated after the pid file named it, it was found
/// alive, it had processes, and one of their command lines runs this
/// client's profile: a process group id reused by the system is left alone.
pub fn cleanup_step(state: CleanupState, event: CleanupEvent) -> (r: (CleanupState, CleanupAction))
    ensures
        match (state, event) {
            (CleanupState::Begin, CleanupEvent::PidfileRead(None)) => r.0 is Finished && r.1
                == CleanupAction::Finish { clear_pidfile: false },
            (CleanupState::Begin, CleanupEvent::PidfileRead(Some(t))) => match pidfile_pgid(t@) {
                Some(g) => r.0 == CleanupState::Recorded { pgid: g } && r.1
                    == CleanupAction::CheckGroup { pgid: g },
                None => r.0 is Finished && r.1 == CleanupAction::Finish { clear_pidfile: true },
            },
            (CleanupState::Recorded { pgid }, CleanupEvent::GroupAlive(alive)) => if alive {
                r.0 == CleanupState::Alive { pgid } && r.1 == CleanupAction::ListGroup { pgid }
            } else {
                r.0 is Finished && r.1 == CleanupAction::Finish { clear_pidfile: true }
            },
            (CleanupState::Alive { pgid }, CleanupEvent::GroupListed(out)) => {
                let pids = group_pids_of(out@);
                if pids.len() == 0 {
                    r.0 is Finished && r.1 == CleanupAction::Finish { clear_pidfile: true }
                } else {
                    r.0 == CleanupState::Listed { pgid, count: pids.len() as usize } && (
                    r.1 matches CleanupAction::ListCommands { pids: list } && list@ == comma_list(
                        pids,
                    ))
                }
            },
            (CleanupState::Listed { pgid, count }, CleanupEvent::CommandsListed(None)) => r.0 is Finished
                && r.1 == CleanupAction::Finish { clear_pidfile: false },
            (
                CleanupState::Listed { pgid, count },
                CleanupEvent::CommandsListed(Some(listing)),
            ) => if listing_is_ours_of(listing@) {
                r.0 == CleanupState::Terminating { pgid, count } && r.1
                    == CleanupAction::TerminateGroup { pgid }
            } else {
                r.0 is Finished && r.1 == CleanupAction::Finish { clear_pidfile: true }
            },
            (CleanupState::Terminating { pgid, count }, CleanupEvent::Terminated) => r.0 is Finished
                && (r.1 matches CleanupAction::Report { message } && message@ == cleanup_message_of(
                pgid,
                count as nat,
            )),
            _ => r.0 is Finished && r.1 == CleanupAction::Finish { clear_pidfile: false },
        },
{
    match (state, event) {
        (CleanupState::Begin, CleanupEvent::PidfileRead(None)) => (
            CleanupState::Finished,
            CleanupAction::Finish { clear_pidfile: false },
        ),
        (CleanupState::Begin, CleanupEvent::PidfileRead(Some(t))) => match parse_pidfile(
            t.as_str(),
        ) {
            Some(g) => (CleanupState::Recorded { pgid: g }, CleanupAction::CheckGroup { pgid: g }),
            None => (CleanupState::Finished, CleanupAction::Finish { clear_pidfile: true }),
        },
        (CleanupState::Recorded { pgid }, CleanupEvent::GroupAlive(alive)) => if alive {
            (CleanupState::Alive { pgid }, CleanupAction::ListGroup { pgid })
        } else {
            (CleanupState::Finished, CleanupAction::Finish { clear_pidfile: true })
        },
        (CleanupState::Alive { pgid }, CleanupEvent::GroupListed(out)) => {
            let pids = group_pids_from(out.as_slice());
            if pids.len() == 0 {
                (CleanupState::Finished, CleanupAction::Finish { clear_pidfile: true })
            } else {
                let list = comma_list_of(&pids);
                (
                    CleanupState::Listed { pgid, count: pids.len() },
                    CleanupAction::ListCommands { pids: list },
                )
            }
        },
        (CleanupState::Listed { pgid, count }, CleanupEvent::CommandsListed(None)) => (
            CleanupState::Finished,
            CleanupAction::Finish { clear_pidfile: false },
        ),
        (CleanupState::Listed { pgid, count }, CleanupEvent::CommandsListed(Some(listing))) => {
            if listing_is_ours(listing.as_slice()) {
                (CleanupState::Terminating { pgid, count }, CleanupAction::TerminateGroup { pgid })
            } else {
                (CleanupState::Finished, CleanupAction::Finish { clear_pidfile: true })
            }
        },
        (CleanupState::Terminating { pgid, count }, CleanupEvent::Terminated) => {
            let mut m: Vec<char> = Vec::new();
            push_str(&mut m, "已清理上次遗留的 dsh 后端(进程组 ");
            push_all(&mut m, decimal_u64(pgid as u64).as_slice());
            push_str(&mut m, ",");
            push_all(&mut m, decimal_u64(count as u64).as_slice());
            push_str(&mut m, " 个进程)");
            proof {
                assert(m@ =~= cleanup_message_of(pgid, count as nat));
            }
            (CleanupState::Finished, CleanupAction::Report { message: string_of(m.as_slice()) })
        },
        _ => (CleanupState::Finished, CleanupAction::Finish { clear_pidfile: false }),
    }
}

/// How many log lines are kept.
pub const MAX_LOG_LINES: usize = 800;

/// Seconds the backend is given to announce readiness (the first start may
/// have to install the profile's dependencies).
pub const READY_TIMEOUT_SECS: u64 = 300;

/// The newest `MAX_LOG_LINES` entries of `s`.
pub open spec fn newest(s: Seq<LogView>) -> Seq<LogView> {
    if s.len() > MAX_LOG_LINES {
        s.skip(s.len() - MAX_LOG_LINES)
    } else {
        s
    }
}

/// The backend's state, guarded by the caller's lock.
pub struct Lifecycle {
    pub status: BackendStatus,
    /// The pid of the backend once it is ready.
    pub running: Option<u32>,
    /// A pid that was spawned but is not ready yet, for timeouts and stops.
    pub pending_pid: Option<u32>,
    /// A stop was asked for: tells an expected exit from an unexpected one.
    pub stopping: bool,
    pub logs: std::collections::VecDeque<LogLine>,
    /// The sequence number of the last log line.
    pub seq: u64,
}

/// Whether a start request is answered with the current status instead.
pub open spec fn is_busy(s: StatusView) -> bool {
    s is Ready || s is Starting || s is Stopping
}

/// A start request is answered with the current status, and nothing is
/// started, only while a backend runs, starts or stops: an idle backend, and
/// one that failed or exited, is started again.
pub proof fn lemma_finished_backends_start_again(s: StatusView)
    ensures
        (s is Idle || s is Failed || s is Exited) ==> !is_busy(s),
        (s is Ready || s is Starting || s is Stopping) ==> is_busy(s),
{
}

pub open spec fn not_found_message() -> Seq<char> {
    "未找到可用的 dsh:PATH 与常见安装位置都没有,也没有 npx。请先安装(例如 npm i -g @deepseek-ai/dsh),或用环境变量 DHDESKTOP_DSH_BIN 指定路径。"@
}

pub open spec fn launch_message(display: Seq<char>, label: Seq<char>) -> Seq<char> {
    "使用 "@ + display + " ("@ + label + ") 启动 dsh"@
}

pub open spec fn home_message(dsh_home: Seq<char>, profile_ready: bool) -> Seq<char> {
    "DSH_HOME="@ + dsh_home + if profile_ready {
        ",复用已有 profile "@ + crate::paths::PROFILE_NAME@
    } else {
        ",首次启动:从内置模板 "@ + crate::paths::PROFILE_TEMPLATE@ + " 初始化 profile"@
    }
}

pub open spec fn spawn_failed_message(error: Seq<char>) -> Seq<char> {
    "启动 dsh 失败: "@ + error
}

pub open spec fn no_pid_message() -> Seq<char> {
    "启动 dsh 失败:拿不到子进程 pid"@
}

pub open spec fn spawned_message(pid: u32) -> Seq<char> {
    "dsh 子进程已启动 (pid "@ + decimal(pid as nat) + ")"@
}

pub open spec fn ready_message_of(program: Seq<char>) -> Seq<char> {
    "dsh 后端就绪:"@ + program
}

pub open spec fn timeout_message() -> Seq<char> {
    "dsh 启动超时("@ + decimal(READY_TIMEOUT_SECS as nat) + "s 内没有就绪),详见日志"@
}

/// `(退出码 <code>)`, or nothing when the exit code is unknown.
pub open spec fn code_suffix(code: Option<i32>) -> Seq<char> {
    match code {
        Some(c) => "(退出码 "@ + signed_decimal(c as int) + ")"@,
        None => Seq::empty(),
    }
}

pub open spec fn stopped_message() -> Seq<char> {
    "dsh 后端已停止"@
}

pub open spec fn exited_message(code: Option<i32>) -> Seq<char> {
    "dsh 后端已退出"@ + code_suffix(code)
}

pub open spec fn start_failed_message(code: Option<i32>) -> Seq<char> {
    "dsh 启动失败"@ + code_suffix(code) + " —— 详见下方日志"@
}

pub open spec fn stopping_message(pid: u32) -> Seq<char> {
    "正在停止 dsh 后端 (pid "@ + decimal(pid as nat) + ")"@
}

pub open spec fn kill_message(pid: u32) -> Seq<char> {
    "pid "@ + decimal(pid as nat) + " 在宽限期内未退出,强制 SIGKILL"@
}

pub open spec fn not_running_message() -> Seq<char> {
    "后端未运行,无法打开 dsh 界面"@
}

fn text_of(parts: Vec<char>) -> (r: String)
    ensures
        r@ == parts@,
{
    string_of(parts.as_slice())
}

fn code_suffix_chars(code: Option<i32>) -> (r: Vec<char>)
    ensures
        r@ == code_suffix(code),
{
    let mut m: Vec<char> = Vec::new();
    if let Some(c) = code {
        push_str(&mut m, "(退出码 ");
        push_all(&mut m, decimal_i64(c as i64).as_slice());
        push_str(&mut m, ")");
        assert(m@ =~= code_suffix(code));
    } else {
        assert(m@ =~= code_suffix(code));
    }
    m
}

/// `dsh 后端就绪:<program>`.
pub fn ready_message(program: &str) -> (r: String)
    ensures
        r@ == ready_message_of(program@),
{
    let mut m: Vec<char> = Vec::new();
    push_str(&mut m, "dsh 后端就绪:");
    push_str(&mut m, program);
    text_of(m)
}

/// `正在停止 dsh 后端 (pid <pid>)`.
pub fn stop_message(pid: u32) -> (r: String)
    ensures
        r@ == stopping_message(pid),
{
    let mut m: Vec<char> = Vec::new();
    push_str(&mut m, "正在停止 dsh 后端 (pid ");
    push_all(&mut m, decimal_u64(pid as u64).as_slice());
    push_str(&mut m, ")");
    text_of(m)
}

/// `pid <pid> 在宽限期内未退出,强制 SIGKILL`.
pub fn force_kill_message(pid: u32) -> (r: String)
    ensures
        r@ == kill_message(pid),
{
    let mut m: Vec<char> = Vec::new();
    push_str(&mut m, "pid ");
    push_all(&mut m, decimal_u64(pid as u64).as_slice());
    push_str(&mut m, " 在宽限期内未退出,强制 SIGKILL");
    text_of(m)
}

/// The command line after the program: the resolved prefix, this client's
/// profile (initialised from the template on the first start), no browser,
/// a port picked by the system, loopback only.
pub open spec fn launch_args_of(prefix: Seq<Seq<char>>, profile_ready: bool) -> Seq<Seq<char>> {
    prefix + seq!["--profile"@, crate::paths::PROFILE_NAME@] + (if profile_ready {
        Seq::<Seq<char>>::empty()
    } else {
        seq!["--from-default-profile"@, crate::paths::PROFILE_TEMPLATE@]
    }) + seq!["--no-open"@, "--port"@, "0"@, "--host"@, "127.0.0.1"@]
}

pub fn launch_args(resolved: &crate::locate::ResolvedDsh, profile_ready: bool) -> (r: Vec<String>)
    ensures
        crate::locate::string_views(r@) == launch_args_of(resolved@.args, profile_ready),
{
    let mut r: Vec<String> = Vec::new();
    let mut k: usize = 0;
    while k < resolved.args.len()
        invariant
            k <= resolved.args@.len(),
            crate::locate::string_views(r@) == crate::locate::string_views(resolved.args@).take(
                k as int,
            ),
        decreases resolved.args@.len() - k,
    {
        let ghost old_r = r@;
        r.push(resolved.args[k].clone());
        proof {
            assert(crate::locate::string_views(r@) =~= crate::locate::string_views(old_r).push(
                resolved.args@[k as int]@,
            ));
            assert(crate::locate::string_views(r@) =~= crate::locate::string_views(
                resolved.args@,
            ).take(k + 1));
        }
        k = k + 1;
    }
    let ghost prefix = crate::locate::string_views(r@);
    assert(prefix =~= resolved@.args);
    r.push("--profile".to_string());
    r.push(crate::paths::PROFILE_NAME.to_string());
    if !profile_ready {
        r.push("--from-default-profile".to_string());
        r.push(crate::paths::PROFILE_TEMPLATE.to_string());
    }
    r.push("--no-open".to_string());
    r.push("--port".to_string());
    r.push("0".to_string());
    r.push("--host".to_string());
    r.push("127.0.0.1".to_string());
    assert(crate::locate::string_views(r@) =~= launch_args_of(resolved@.args, profile_ready));
    r
}

impl Lifecycle {
    /// The log by contents.
    pub open spec fn log_views(&self) -> Seq<LogView> {
        self.logs@.map_values(|l: LogLine| l@)
    }

    /// At most `MAX_LOG_LINES` lines are kept, numbered consecutively up to `seq`.
    pub open spec fn wf(&self) -> bool {
        &&& self.logs@.len() <= MAX_LOG_LINES
        &&& self.logs@.len() <= self.seq
        &&& forall|i: int|
            0 <= i < self.logs@.len() ==> #[trigger] self.logs@[i].seq == self.seq
                - self.logs@.len() + 1 + i
    }

    /// A ready backend has a pid, and a pid is only kept while the backend
    /// is ready or being stopped.
    pub open spec fn consistent(&self) -> bool {
        &&& self.status@ is Ready ==> self.running is Some
        &&& self.running is Some ==> (self.status@ is Ready || self.status@ is Stopping)
    }

    /// Nothing but the log changed from `old` to `self`.
    pub open spec fn same_state(&self, old: &Lifecycle) -> bool {
        &&& self.status@ == old.status@
        &&& self.running == old.running
        &&& self.pending_pid == old.pending_pid
        &&& self.stopping == old.stopping
    }

    /// `old`'s log with `text` appended on `stream`.
    pub open spec fn logged(&self, old: &Lifecycle, stream: Seq<char>, text: Seq<char>, at_ms: u64) -> bool {
        &&& self.seq == old.seq + 1
        &&& self.log_views() == newest(
            old.log_views().push(LogView { seq: (old.seq + 1) as u64, stream, text, at_ms }),
        )
    }

    pub fn new() -> (r: Lifecycle)
        ensures
            r.status@ == StatusView::Idle,
            r.running is None,
            r.pending_pid is None,
            !r.stopping,
            r.log_views().len() == 0,
            r.seq == 0,
            r.wf(),
            r.consistent(),
    {
        Lifecycle {
            status: BackendStatus::Idle,
            running: None,
            pending_pid: None,
            stopping: false,
            logs: std::collections::VecDeque::new(),
            seq: 0,
        }
    }

    /// The current status.
    pub fn current(&self) -> (r: BackendStatus)
        ensures
            r@ == self.status@,
    {
        self.status.copy()
    }

    /// The kept log lines, oldest first.
    pub fn log_lines(&self) -> (r: Vec<LogLine>)
        ensures
            r@.map_values(|l: LogLine| l@) == self.log_views(),
    {
        let mut r: Vec<LogLine> = Vec::new();
        let mut k: usize = 0;
        while k < self.logs.len()
            invariant
                k <= self.logs@.len(),
                r@.map_values(|l: LogLine| l@) == self.log_views().take(k as int),
            decreases self.logs@.len() - k,
        {
            let ghost old_r = r@;
            let c = self.logs[k].copy();
            assert(c@ == self.logs@[k as int]@);
            r.push(c);
            proof {
                assert(r@.map_values(|l: LogLine| l@) =~= old_r.map_values(|l: LogLine| l@).push(
                    self.logs@[k as int]@,
                ));
                assert(r@.map_values(|l: LogLine| l@) =~= self.log_views().take(k + 1));
            }
            k = k + 1;
        }
        assert(self.log_views().take(k as int) =~= self.log_views());
        r
    }

    /// Appends a line to the log, dropping the oldest beyond `MAX_LOG_LINES`.
    pub fn push_log(&mut self, stream: &str, text: String, at_ms: u64) -> (r: LogLine)
        requires
            old(self).wf(),
            old(self).seq < u64::MAX,
        ensures
            final(self).wf(),
            final(self).logged(old(self), stream@, text@, at_ms),
            final(self).same_state(old(self)),
            r@ == (LogView { seq: final(self).seq, stream: stream@, text: text@, at_ms }),
    {
        let ghost old_logs = self.log_views();
        self.seq = self.seq + 1;
        let line = LogLine { seq: self.seq, stream: stream.to_string(), text, at_ms };
        let copy = line.copy();
        self.logs.push_back(line);
        proof {
            assert(self.log_views() =~= old_logs.push(copy@));
        }
        if self.logs.len() > MAX_LOG_LINES {
            let ghost before = self.log_views();
            self.logs.pop_front();
            proof {
                assert(self.log_views() =~= before.skip(1));
                assert(before.len() == MAX_LOG_LINES + 1);
            }
        }
        proof {
            assert(self.log_views() =~= newest(old_logs.push(copy@)));
            assert forall|i: int| 0 <= i < self.logs@.len() implies #[trigger] self.logs@[i].seq
                == self.seq - self.logs@.len() + 1 + i by {
                assert(self.logs@[i].seq == self.log_views()[i].seq);
            }
        }
        copy
    }

    /// The status to answer a start request with, when there is nothing to
    /// start: the backend is ready, starting, or being stopped.
    pub fn start_check(&self) -> (r: Option<BackendStatus>)
        ensures
            is_busy(self.status@) ==> r is Some && r->0@ == self.status@,
            !is_busy(self.status@) ==> r is None,
            r is None <==> (self.status@ is Idle || self.status@ is Failed
                || self.status@ is Exited),
    {
        match &self.status {
            BackendStatus::Ready { .. } | BackendStatus::Starting { .. } | BackendStatus::Stopping => {
                Some(self.status.copy())
            },
            _ => None,
        }
    }

    fn fail_with(&mut self, message: Vec<char>, log: bool, at_ms: u64) -> (r: BackendStatus)
        requires
            old(self).wf(),
            old(self).seq < u64::MAX,
        ensures
            final(self).wf(),
            final(self).status@ == (StatusView::Failed { message: message@ }),
            r@ == final(self).status@,
            log ==> final(self).logged(old(self), "system"@, message@, at_ms),
            !log ==> final(self).seq == old(self).seq && final(self).log_views() == old(self).log_views(),
            final(self).running == old(self).running,
            final(self).pending_pid == old(self).pending_pid,
            final(self).stopping == old(self).stopping,
    {
        if log {
            self.push_log("system", string_of(message.as_slice()), at_ms);
        }
        self.status = BackendStatus::Failed { message: string_of(message.as_slice()) };
        self.status.copy()
    }

    /// No way to start `dsh` was found.
    pub fn start_not_found(&mut self, at_ms: u64) -> (r: BackendStatus)
        requires
            old(self).wf(),
            old(self).seq < u64::MAX,
        ensures
            final(self).wf(),
            final(self).logged(old(self), "system"@, not_found_message(), at_ms),
            final(self).status@ == (StatusView::Failed { message: not_found_message() }),
            r@ == final(self).status@,
            final(self).running == old(self).running,
            final(self).pending_pid == old(self).pending_pid,
            final(self).stopping == old(self).stopping,
            old(self).consistent() && !is_busy(old(self).status@) ==> final(self).consistent(),
    {
        let mut m: Vec<char> = Vec::new();
        push_str(&mut m, "未找到可用的 dsh:PATH 与常见安装位置都没有,也没有 npx。请先安装(例如 npm i -g @deepseek-ai/dsh),或用环境变量 DHDESKTOP_DSH_BIN 指定路径。");
        self.fail_with(m, true, at_ms)
    }

    /// About to spawn `resolved`: the status becomes `Starting`, and the
    /// command and the `DSH_HOME` are logged.
    pub fn start_launching(
        &mut self,
        resolved: &crate::locate::ResolvedDsh,
        dsh_home: &str,
        profile_ready: bool,
        at_ms: u64,
    )
        requires
            old(self).wf(),
            old(self).seq < u64::MAX - 1,
        ensures
            final(self).wf(),
            final(self).status@ == (StatusView::Starting {
                program: resolved@.display,
                source: resolved@.source_label,
            }),
            final(self).seq == old(self).seq + 2,
            final(self).log_views() == newest(
                newest(
                    old(self).log_views().push(
                        LogView {
                            seq: (old(self).seq + 1) as u64,
                            stream: "system"@,
                            text: launch_message(resolved@.display, resolved@.source_label),
                            at_ms,
                        },
                    ),
                ).push(
                    LogView {
                        seq: (old(self).seq + 2) as u64,
                        stream: "system"@,
                        text: home_message(dsh_home@, profile_ready),
                        at_ms,
                    },
                ),
            ),
            final(self).running == old(self).running,
            final(self).pending_pid == old(self).pending_pid,
            final(self).stopping == old(self).stopping,
            old(self).consistent() && !is_busy(old(self).status@) ==> final(self).consistent(),
    {
        self.status = BackendStatus::Starting {
            program: resolved.display.clone(),
            source: resolved.source_label.clone(),
        };
        let mut m: Vec<char> = Vec::new();
        push_str(&mut m, "使用 ");
        push_str(&mut m, resolved.display.as_str());
        push_str(&mut m, " (");
        push_str(&mut m, resolved.source_label.as_str());
        push_str(&mut m, ") 启动 dsh");
        self.push_log("system", text_of(m), at_ms);
        let mut h: Vec<char> = Vec::new();
        push_str(&mut h, "DSH_HOME=");
        push_str(&mut h, dsh_home);
        if profile_ready {
            push_str(&mut h, ",复用已有 profile ");
            push_str(&mut h, crate::paths::PROFILE_NAME);
        } else {
            push_str(&mut h, ",首次启动:从内置模板 ");
            push_str(&mut h, crate::paths::PROFILE_TEMPLATE);
            push_str(&mut h, " 初始化 profile");
        }
        proof {
            assert(h@ =~= home_message(dsh_home@, profile_ready));
        }
        self.push_log("system", text_of(h), at_ms);
    }

    /// Spawning failed with `error`.
    pub fn spawn_failed(&mut self, error: &str, at_ms: u64) -> (r: BackendStatus)
        requires
            old(self).wf(),
            old(self).seq < u64::MAX,
        ensures
            final(self).wf(),
            final(self).logged(old(self), "system"@, spawn_failed_message(error@), at_ms),
            final(self).status@ == (StatusView::Failed { message: spawn_failed_message(error@) }),
            r@ == final(self).status@,
            final(self).running == old(self).running,
            final(self).pending_pid == old(self).pending_pid,
            final(self).stopping == old(self).stopping,
            old(self).consistent() && !is_busy(old(self).status@) ==> final(self).consistent(),
    {
        let mut m: Vec<char> = Vec::new();
        push_str(&mut m, "启动 dsh 失败: ");
        push_str(&mut m, error);
        self.fail_with(m, true, at_ms)
    }

    /// The child was spawned, but its pid could not be had.
    pub fn spawn_without_pid(&mut self) -> (r: BackendStatus)
        requires
            old(self).wf(),
            old(self).seq < u64::MAX,
        ensures
            final(self).wf(),
            final(self).status@ == (StatusView::Failed { message: no_pid_message() }),
            r@ == final(self).status@,
            final(self).seq == old(self).seq,
            final(self).log_views() == old(self).log_views(),
            final(self).running == old(self).running,
            final(self).pending_pid == old(self).pending_pid,
            final(self).stopping == old(self).stopping,
            old(self).consistent() && !is_busy(old(self).status@) ==> final(self).consistent(),
    {
        let mut m: Vec<char> = Vec::new();
        push_str(&mut m, "启动 dsh 失败:拿不到子进程 pid");
        self.fail_with(m, false, 0)
    }

    /// The child is running as `pid` (and leads its own process group).
    pub fn spawned(&mut self, pid: u32, at_ms: u64)
        requires
            old(self).wf(),
            old(self).seq < u64::MAX,
        ensures
            final(self).wf(),
            final(self).logged(old(self), "system"@, spawned_message(pid), at_ms),
            final(self).pending_pid == Some(pid),
            !final(self).stopping,
            final(self).status@ == old(self).status@,
            final(self).running == old(self).running,
            old(self).consistent() ==> final(self).consistent(),
    {
        self.pending_pid = Some(pid);
        self.stopping = false;
        let mut m: Vec<char> = Vec::new();
        push_str(&mut m, "dsh 子进程已启动 (pid ");
        push_all(&mut m, decimal_u64(pid as u64).as_slice());
        push_str(&mut m, ")");
        self.push_log("system", text_of(m), at_ms);
    }

    /// A line on the child's stdout: logged, and when it is the ready line
    /// the backend becomes ready on its port; what it announced is returned.
    pub fn stdout_line(&mut self, line: String, pid: u32, at_ms: u64) -> (r: Option<ReadyInfo>)
        requires
            old(self).wf(),
            old(self).seq < u64::MAX,
        ensures
            final(self).wf(),
            final(self).logged(old(self), "stdout"@, line@, at_ms),
            match r {
                Some(info) => {
                    &&& ready_line_of(line@) == Some((info.url@, info.port, info.token@))
                    &&& final(self).status@ == (StatusView::Ready {
                        url: info.url@,
                        port: info.port,
                        pid,
                        started_at_ms: at_ms,
                    })
                    &&& final(self).running == Some(pid)
                    &&& final(self).pending_pid is None
                    &&& final(self).stopping == old(self).stopping
                },
                None => {
                    &&& ready_line_of(line@) is None
                    &&& final(self).same_state(old(self))
                },
            },
            old(self).consistent() ==> final(self).consistent(),
    {
        let ready = parse_ready_line(line.as_str());
        self.push_log("stdout", line, at_ms);
        match ready {
            Some(info) => {
                self.running = Some(pid);
                self.pending_pid = None;
                self.status = BackendStatus::Ready {
                    url: info.url.clone(),
                    port: info.port,
                    pid,
                    started_at_ms: at_ms,
                };
                Some(info)
            },
            None => None,
        }
    }

    /// A line on the child's stderr: only logged.
    pub fn stderr_line(&mut self, line: String, at_ms: u64)
        requires
            old(self).wf(),
            old(self).seq < u64::MAX,
        ensures
            final(self).wf(),
            final(self).logged(old(self), "stderr"@, line@, at_ms),
            final(self).same_state(old(self)),
    {
        self.push_log("stderr", line, at_ms);
    }

    /// The ready timeout expired. A backend still starting has failed, and
    /// `true` tells the caller to kill its process group; in any other state
    /// nothing changes.
    pub fn ready_timeout(&mut self, at_ms: u64) -> (r: bool)
        requires
            old(self).wf(),
            old(self).seq < u64::MAX,
        ensures
            final(self).wf(),
            r == (old(self).status@ is Starting),
            r ==> {
                &&& final(self).logged(old(self), "system"@, timeout_message(), at_ms)
                &&& final(self).status@ == (StatusView::Failed { message: timeout_message() })
                &&& final(self).pending_pid is None
                &&& final(self).running == old(self).running
                &&& final(self).stopping == old(self).stopping
            },
            !r ==> final(self).same_state(old(self)) && final(self).seq == old(self).seq
                && final(self).log_views() == old(self).log_views(),
            old(self).consistent() ==> final(self).consistent(),
    {
        match self.status {
            BackendStatus::Starting { .. } => {
                let mut m: Vec<char> = Vec::new();
                push_str(&mut m, "dsh 启动超时(");
                push_all(&mut m, decimal_u64(READY_TIMEOUT_SECS).as_slice());
                push_str(&mut m, "s 内没有就绪),详见日志");
                self.fail_with(m, true, at_ms);
                self.pending_pid = None;
                true
            },
            _ => false,
        }
    }

    /// The child exited with `code`. After a stop request that is the
    /// expected end and the backend is idle; a ready backend has exited;
    /// anything else is a failed start.
    pub fn exited(&mut self, code: Option<i32>, at_ms: u64)
        requires
            old(self).wf(),
            old(self).seq < u64::MAX,
        ensures
            final(self).wf(),
            final(self).running is None,
            final(self).pending_pid is None,
            !final(self).stopping,
            old(self).stopping ==> final(self).status@ == StatusView::Idle && final(self).logged(
                old(self),
                "system"@,
                stopped_message(),
                at_ms,
            ),
            !old(self).stopping && old(self).status@ is Ready ==> final(self).status@
                == (StatusView::Exited { code, message: exited_message(code) }) && final(self).logged(old(self), "system"@, exited_message(code), at_ms),
            !old(self).stopping && !(old(self).status@ is Ready) ==> final(self).status@
                == (StatusView::Failed { message: start_failed_message(code) }) && final(self).logged(old(self), "system"@, start_failed_message(code), at_ms),
            final(self).consistent(),
    {
        self.running = None;
        self.pending_pid = None;
        if self.stopping {
            self.stopping = false;
            self.push_log("system", "dsh 后端已停止".to_string(), at_ms);
            self.status = BackendStatus::Idle;
        } else if self.status.is_ready() {
            let mut m: Vec<char> = Vec::new();
            push_str(&mut m, "dsh 后端已退出");
            push_all(&mut m, code_suffix_chars(code).as_slice());
            let message = text_of(m);
            self.push_log("system", message.clone(), at_ms);
            self.status = BackendStatus::Exited { code, message };
        } else {
            let mut m: Vec<char> = Vec::new();
            push_str(&mut m, "dsh 启动失败");
            push_all(&mut m, code_suffix_chars(code).as_slice());
            push_str(&mut m, " —— 详见下方日志");
            self.fail_with(m, true, at_ms);
        }
    }

    /// A stop request: the pid to signal (the ready one, else the pending
    /// one), with the backend marked as stopping; with neither, the backend
    /// is simply idle and there is nothing to signal.
    pub fn stop_begin(&mut self) -> (r: Option<u32>)
        requires
            old(self).wf(),
        ensures
            final(self).wf(),
            final(self).seq == old(self).seq,
            final(self).log_views() == old(self).log_views(),
            r == (match old(self).running {
                Some(p) => Some(p),
                None => old(self).pending_pid,
            }),
            r is None ==> final(self).status@ == StatusView::Idle && final(self).running is None
                && final(self).pending_pid is None && !final(self).stopping,
            r is Some ==> final(self).status@ == StatusView::Stopping && final(self).stopping
                && final(self).running == old(self).running && final(self).pending_pid == old(self).pending_pid,
            old(self).consistent() ==> final(self).consistent(),
    {
        let pid = match self.running {
            Some(p) => Some(p),
            None => self.pending_pid,
        };
        match pid {
            None => {
                self.running = None;
                self.pending_pid = None;
                self.stopping = false;
                self.status = BackendStatus::Idle;
                None
            },
            Some(p) => {
                self.stopping = true;
                self.status = BackendStatus::Stopping;
                Some(p)
            },
        }
    }

    /// The stopped group is gone (or was killed): the backend is idle.
    pub fn stop_finish(&mut self)
        requires
            old(self).wf(),
        ensures
            final(self).wf(),
            final(self).seq == old(self).seq,
            final(self).log_views() == old(self).log_views(),
            final(self).status@ == StatusView::Idle,
            final(self).running is None,
            final(self).pending_pid is None,
            !final(self).stopping,
            final(self).consistent(),
    {
        self.running = None;
        self.pending_pid = None;
        self.stopping = false;
        self.status = BackendStatus::Idle;
    }
}

/// What opening the `dsh` window needs decided before any window is touched.
pub struct OpenPlan {
    /// The backend address as parsed.
    pub href: String,
    /// The bare root of the same origin, loaded once a cookie is in place.
    pub root: Option<String>,
    /// The request that trades the token for a cookie, when the address
    /// carries a token and names a host and port.
    pub exchange: Option<ExchangeRequest>,
    /// Whether the address carries a `token` query pair.
    pub has_token: bool,
}

pub open spec fn unparsable_message(url: Seq<char>) -> Seq<char> {
    "后端地址无法解析:"@ + url
}

pub open spec fn cookie_obtained_message(name: Seq<char>) -> Seq<char> {
    "已取得授权 cookie:"@ + name
}

pub open spec fn exchange_failed_message() -> Seq<char> {
    "token 交换失败,退回直接打开带 token 的地址"@
}

pub open spec fn window_opened_message(target: Seq<char>) -> Seq<char> {
    "dsh 界面已打开:"@ + target
}

/// The root of `u`'s origin, `<origin>/`, as parsed again.
pub open spec fn root_of(u: UrlView) -> Option<Seq<char>> {
    match url_parse(u.origin + seq!['/']) {
        Some(r) => Some(r.href),
        None => None,
    }
}

/// The plan for an address: it must parse; the root of its origin; and,
/// when it carries a token, the exchange request.
pub open spec fn open_plan_of(url: Seq<char>) -> Result<
    (Seq<char>, Option<Seq<char>>, bool, Option<(Seq<char>, u16, Seq<char>)>),
    Seq<char>,
> {
    match url_parse(url) {
        None => Err(unparsable_message(url)),
        Some(u) => {
            let has_token = token_of(u.query_pairs) is Some;
            Ok(
                (
                    u.href,
                    root_of(u),
                    has_token,
                    if has_token {
                        exchange_of(u)
                    } else {
                        None
                    },
                ),
            )
        },
    }
}

pub fn plan_open(url: &str) -> (r: Result<OpenPlan, String>)
    ensures
        match r {
            Ok(p) => open_plan_of(url@) == Ok::<_, Seq<char>>(
                (
                    p.href@,
                    crate::urlparts::opt_str(p.root),
                    p.has_token,
                    match p.exchange {
                        Some(x) => Some((x.host@, x.port, x.request@)),
                        None => None,
                    },
                ),
            ),
            Err(e) => open_plan_of(url@) == Err::<
                (Seq<char>, Option<Seq<char>>, bool, Option<(Seq<char>, u16, Seq<char>)>),
                Seq<char>,
            >(e@),
        },
{
    let parsed = match parse_url(url) {
        Some(u) => u,
        None => {
            let mut m: Vec<char> = Vec::new();
            push_str(&mut m, "后端地址无法解析:");
            push_str(&mut m, url);
            return Err(string_of(m.as_slice()));
        },
    };
    let mut origin = chars_of(parsed.origin.as_str());
    origin.push('/');
    let root_text = string_of(origin.as_slice());
    assert(root_text@ == parsed@.origin + seq!['/']);
    let root = match parse_url(root_text.as_str()) {
        Some(r) => Some(r.href),
        None => None,
    };
    assert(crate::urlparts::opt_str(root) == root_of(parsed@));
    let token = token_in(&parsed.query_pairs);
    let has_token = token.is_some();
    assert(has_token == (token_of(parsed@.query_pairs) is Some));
    let exchange = if has_token {
        exchange_request(&parsed)
    } else {
        None
    };
    Ok(OpenPlan { href: parsed.href, root, exchange, has_token })
}

/// Where the window goes: the bare root once a cookie is in place, else the
/// address with its token.
pub fn window_target(plan: &OpenPlan, have_cookie: bool) -> (r: String)
    ensures
        r@ == (match plan.root {
            Some(root) if have_cookie => root@,
            _ => plan.href@,
        }),
{
    match &plan.root {
        Some(root) if have_cookie => root.clone(),
        _ => plan.href.clone(),
    }
}

/// `已取得授权 cookie:<name>`.
pub fn cookie_message(name: &str) -> (r: String)
    ensures
        r@ == cookie_obtained_message(name@),
{
    let mut m: Vec<char> = Vec::new();
    push_str(&mut m, "已取得授权 cookie:");
    push_str(&mut m, name);
    string_of(m.as_slice())
}

/// The fallback notice when the token could not be exchanged.
pub fn exchange_failed() -> (r: String)
    ensures
        r@ == exchange_failed_message(),
{
    "token 交换失败,退回直接打开带 token 的地址".to_string()
}

/// `dsh 界面已打开:<target>`.
pub fn opened_message(target: &str) -> (r: String)
    ensures
        r@ == window_opened_message(target@),
{
    let mut m: Vec<char> = Vec::new();
    push_str(&mut m, "dsh 界面已打开:");
    push_str(&mut m, target);
    string_of(m.as_slice())
}

/// The notice when the interface is asked for while no backend is ready.
pub fn not_running() -> (r: String)
    ensures
        r@ == not_running_message(),
{
    "后端未运行,无法打开 dsh 界面".to_string()
}

/// Whether a stored cookie is one of `dsh`'s authorisation cookies. Their
/// names carry a hash of the authority, so every run leaves a new one
/// behind; only these are purged, other cookies are left alone.
pub fn is_auth_cookie(name: &str) -> (r: bool)
    ensures
        r == starts_with(name@, "dsh-auth-"@),
{
    let n = chars_of(name);
    let p = chars_of("dsh-auth-");
    crate::text::starts_with_chars(n.as_slice(), p.as_slice())
}

} // verus!

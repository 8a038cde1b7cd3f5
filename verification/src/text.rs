//! Character-sequence helpers shared by the rest of the crate: Unicode
//! whitespace trimming, searching, line splitting, and decimal numbers.

use vstd::prelude::*;

verus! {

/// The Unicode `White_Space` property, which `str::trim` and
/// `char::is_whitespace` are documented to follow.
pub open spec fn is_white_space(c: char) -> bool {
    let u = c as u32;
    ||| (0x9 <= u && u <= 0xd)
    ||| u == 0x20
    ||| u == 0x85
    ||| u == 0xa0
    ||| u == 0x1680
    ||| (0x2000 <= u && u <= 0x200a)
    ||| u == 0x2028
    ||| u == 0x2029
    ||| u == 0x202f
    ||| u == 0x205f
    ||| u == 0x3000
}

pub fn white_space(c: char) -> (b: bool)
    ensures
        b == is_white_space(c),
{
    let u = c as u32;
    (0x9 <= u && u <= 0xd) || u == 0x20 || u == 0x85 || u == 0xa0 || u == 0x1680 || (0x2000 <= u
        && u <= 0x200a) || u == 0x2028 || u == 0x2029 || u == 0x202f || u == 0x205f || u == 0x3000
}

/// Leading whitespace removed.
pub open spec fn trim_start(s: Seq<char>) -> Seq<char>
    decreases s.len(),
{
    if s.len() > 0 && is_white_space(s[0]) {
        trim_start(s.drop_first())
    } else {
        s
    }
}

/// Trailing whitespace removed.
pub open spec fn trim_end(s: Seq<char>) -> Seq<char>
    decreases s.len(),
{
    if s.len() > 0 && is_white_space(s.last()) {
        trim_end(s.drop_last())
    } else {
        s
    }
}

/// What `str::trim` gives back.
pub open spec fn trim(s: Seq<char>) -> Seq<char> {
    trim_end(trim_start(s))
}

/// Whether nothing but whitespace is in `s` (`s.trim().is_empty()`).
pub open spec fn is_blank(s: Seq<char>) -> bool {
    trim(s).len() == 0
}

proof fn lemma_trim_start_skip(s: Seq<char>, i: int)
    requires
        0 <= i < s.len(),
        is_white_space(s[i]),
    ensures
        trim_start(s.subrange(i, s.len() as int)) == trim_start(s.subrange(i + 1, s.len() as int)),
{
    assert(s.subrange(i, s.len() as int).drop_first() =~= s.subrange(i + 1, s.len() as int));
}

proof fn lemma_trim_end_skip(s: Seq<char>, j: int)
    requires
        0 < j <= s.len(),
        is_white_space(s[j - 1]),
    ensures
        trim_end(s.subrange(0, j)) == trim_end(s.subrange(0, j - 1)),
{
    assert(s.subrange(0, j).drop_last() =~= s.subrange(0, j - 1));
}

/// Index of the first non-whitespace character (or the length).
fn trim_start_index(s: &[char]) -> (i: usize)
    ensures
        i <= s@.len(),
        trim_start(s@) == s@.subrange(i as int, s@.len() as int),
{
    let mut i: usize = 0;
    assert(s@.subrange(0, s@.len() as int) =~= s@);
    while i < s.len() && white_space(s[i])
        invariant
            i <= s@.len(),
            trim_start(s@) == trim_start(s@.subrange(i as int, s@.len() as int)),
        decreases s@.len() - i,
    {
        proof {
            lemma_trim_start_skip(s@, i as int);
        }
        i = i + 1;
    }
    i
}

/// `s` with leading and trailing whitespace removed, as `str::trim` does.
pub fn trim_chars(s: &[char]) -> (r: Vec<char>)
    ensures
        r@ == trim(s@),
{
    let i = trim_start_index(s);
    let mut j: usize = s.len();
    let ghost t = s@.subrange(i as int, s@.len() as int);
    assert(t.subrange(0, t.len() as int) =~= t);
    while j > i && white_space(s[j - 1])
        invariant
            i <= j <= s@.len(),
            t == s@.subrange(i as int, s@.len() as int),
            trim_end(t) == trim_end(s@.subrange(i as int, j as int)),
        decreases j,
    {
        proof {
            let u = s@.subrange(i as int, j as int);
            lemma_trim_end_skip(u, (j - i) as int);
            assert(u.subrange(0, (j - i) as int) =~= u);
            assert(u.subrange(0, (j - i - 1) as int) =~= s@.subrange(i as int, j - 1));
        }
        j = j - 1;
    }
    let mut r: Vec<char> = Vec::new();
    let mut k: usize = i;
    while k < j
        invariant
            i <= k <= j <= s@.len(),
            r@ == s@.subrange(i as int, k as int),
        decreases j - k,
    {
        r.push(s[k]);
        proof {
            assert(r@ =~= s@.subrange(i as int, k + 1));
        }
        k = k + 1;
    }
    proof {
        let u = s@.subrange(i as int, j as int);
        if u.len() > 0 {
            assert(u.last() == s@[j - 1]);
        }
    }
    r
}

/// `pat` occurs in `s` starting at index `i`.
pub open spec fn occurs_at(s: Seq<char>, pat: Seq<char>, i: int) -> bool {
    0 <= i && i + pat.len() <= s.len() && s.subrange(i, i + pat.len()) == pat
}

/// The first index at or after `k` where `pat` occurs in `s`.
pub open spec fn find_from(s: Seq<char>, pat: Seq<char>, k: int) -> Option<int>
    decreases s.len() + 1 - k,
{
    if k < 0 || k + pat.len() > s.len() {
        None
    } else if occurs_at(s, pat, k) {
        Some(k)
    } else {
        find_from(s, pat, k + 1)
    }
}

/// The first index where `pat` occurs in `s` (`str::find` counted in characters).
pub open spec fn find(s: Seq<char>, pat: Seq<char>) -> Option<int> {
    find_from(s, pat, 0)
}

/// Whether `pat` occurs in `s` (`str::contains`).
pub open spec fn contains(s: Seq<char>, pat: Seq<char>) -> bool {
    find(s, pat) is Some
}

pub proof fn lemma_find_from_bounds(s: Seq<char>, pat: Seq<char>, k: int)
    requires
        k >= 0,
    ensures
        find_from(s, pat, k) matches Some(i) ==> k <= i && occurs_at(s, pat, i) && (forall|j: int|
            k <= j < i ==> !occurs_at(s, pat, j)),
        find_from(s, pat, k) is None ==> forall|j: int| k <= j ==> !occurs_at(s, pat, j),
    decreases s.len() + 1 - k,
{
    if k + pat.len() > s.len() {
    } else if occurs_at(s, pat, k) {
    } else {
        lemma_find_from_bounds(s, pat, k + 1);
    }
}

/// An occurrence makes `contains` true.
pub proof fn lemma_occurs_contains(s: Seq<char>, pat: Seq<char>, j: int)
    requires
        occurs_at(s, pat, j),
    ensures
        contains(s, pat),
{
    lemma_find_from_bounds(s, pat, 0);
}

/// Occurrences survive putting text before or after.
pub proof fn lemma_occurs_concat(a: Seq<char>, b: Seq<char>, pat: Seq<char>, j: int)
    requires
        occurs_at(a, pat, j),
    ensures
        occurs_at(a + b, pat, j),
        occurs_at(b + a, pat, j + b.len()),
{
    assert((a + b).subrange(j, j + pat.len()) =~= a.subrange(j, j + pat.len()));
    assert((b + a).subrange(j + b.len(), j + b.len() + pat.len()) =~= a.subrange(j, j + pat.len()));
}

/// A sequence occurs in itself, and a prefix at its start.
pub proof fn lemma_occurs_prefix(a: Seq<char>, b: Seq<char>)
    ensures
        occurs_at(a + b, a, 0),
{
    assert((a + b).subrange(0, a.len() as int) =~= a);
}

/// Whether `pat` occurs in `s` at index `i`.
pub fn matches_at(s: &[char], pat: &[char], i: usize) -> (b: bool)
    ensures
        b == occurs_at(s@, pat@, i as int),
{
    if i > s.len() || pat.len() > s.len() - i {
        return false;
    }
    let n = s.len();
    let mut k: usize = 0;
    while k < pat.len()
        invariant
            n == s@.len(),
            i + pat@.len() <= s@.len(),
            k <= pat@.len(),
            forall|m: int| 0 <= m < k ==> s@[i + m] == pat@[m],
        decreases pat@.len() - k,
    {
        assert(i + k < s@.len());
        if s[i + k] != pat[k] {
            proof {
                assert(s@.subrange(i as int, i + pat@.len())[k as int] != pat@[k as int]);
            }
            return false;
        }
        k = k + 1;
    }
    proof {
        assert(s@.subrange(i as int, i + pat@.len()) =~= pat@);
    }
    true
}

/// The first index where `pat` occurs in `s`.
pub fn find_chars(s: &[char], pat: &[char]) -> (r: Option<usize>)
    ensures
        match r {
            Some(i) => find(s@, pat@) == Some(i as int),
            None => find(s@, pat@) is None,
        },
{
    if pat.len() == 0 {
        assert(s@.subrange(0, 0) =~= pat@);
        return Some(0);
    }
    let mut k: usize = 0;
    while k <= s.len()
        invariant
            pat@.len() > 0,
            find(s@, pat@) == find_from(s@, pat@, k as int),
        decreases s@.len() + 1 - k,
    {
        if pat.len() > s.len() - k {
            return None;
        }
        if matches_at(s, pat, k) {
            return Some(k);
        }
        k = k + 1;
    }
    None
}

/// Whether `s` begins with `pat`.
pub open spec fn starts_with(s: Seq<char>, pat: Seq<char>) -> bool {
    pat.len() <= s.len() && s.subrange(0, pat.len() as int) == pat
}

pub fn starts_with_chars(s: &[char], pat: &[char]) -> (b: bool)
    ensures
        b == starts_with(s@, pat@),
{
    matches_at(s, pat, 0)
}

/// The subrange `s[from..to]` copied out.
pub fn slice_chars(s: &[char], from: usize, to: usize) -> (r: Vec<char>)
    requires
        from <= to <= s@.len(),
    ensures
        r@ == s@.subrange(from as int, to as int),
{
    let mut r: Vec<char> = Vec::new();
    let mut k: usize = from;
    while k < to
        invariant
            from <= k <= to <= s@.len(),
            r@ == s@.subrange(from as int, k as int),
        decreases to - k,
    {
        r.push(s[k]);
        proof {
            assert(r@ =~= s@.subrange(from as int, k + 1));
        }
        k = k + 1;
    }
    r
}

/// `a` followed by `b`.
pub fn concat_chars(a: &[char], b: &[char]) -> (r: Vec<char>)
    ensures
        r@ == a@ + b@,
{
    let mut r = slice_chars(a, 0, a.len());
    let mut k: usize = 0;
    assert(a@.subrange(0, a@.len() as int) =~= a@);
    while k < b.len()
        invariant
            k <= b@.len(),
            r@ == a@ + b@.subrange(0, k as int),
        decreases b@.len() - k,
    {
        r.push(b[k]);
        proof {
            assert(r@ =~= a@ + b@.subrange(0, k + 1));
        }
        k = k + 1;
    }
    assert(b@.subrange(0, b@.len() as int) =~= b@);
    r
}

/// Appends `b` to `a`.
pub fn push_all(a: &mut Vec<char>, b: &[char])
    ensures
        final(a)@ == old(a)@ + b@,
{
    let mut k: usize = 0;
    let ghost a0 = a@;
    while k < b.len()
        invariant
            k <= b@.len(),
            a@ == a0 + b@.subrange(0, k as int),
        decreases b@.len() - k,
    {
        a.push(b[k]);
        proof {
            assert(a@ =~= a0 + b@.subrange(0, k + 1));
        }
        k = k + 1;
    }
    assert(b@.subrange(0, b@.len() as int) =~= b@);
}

/// Appends the characters of `b` to `a`.
pub fn push_str(a: &mut Vec<char>, b: &str)
    ensures
        final(a)@ == old(a)@ + b@,
{
    let cs = chars_of(b);
    push_all(a, cs.as_slice());
}

/// The decimal digit `d` (0..=9) as a character.
pub open spec fn digit_char(d: int) -> char {
    ((d + 48) as u32) as char
}

/// `n` written in decimal, as `to_string` writes an unsigned integer.
pub open spec fn decimal(n: nat) -> Seq<char>
    decreases n,
{
    if n < 10 {
        seq![digit_char(n as int)]
    } else {
        decimal(n / 10).push(digit_char((n % 10) as int))
    }
}

/// `n` written in decimal with a leading `-` when negative.
pub open spec fn signed_decimal(n: int) -> Seq<char> {
    if n < 0 {
        seq!['-'] + decimal((-n) as nat)
    } else {
        decimal(n as nat)
    }
}

fn digit(d: u64) -> (c: char)
    requires
        d < 10,
    ensures
        c == digit_char(d as int),
{
    let b: u8 = (d as u8) + 48;
    b as char
}

/// `n` in decimal.
pub fn decimal_u64(n: u64) -> (r: Vec<char>)
    ensures
        r@ == decimal(n as nat),
    decreases n,
{
    if n < 10 {
        let mut r: Vec<char> = Vec::new();
        r.push(digit(n));
        assert(r@ =~= seq![digit_char(n as int)]);
        r
    } else {
        let mut r = decimal_u64(n / 10);
        r.push(digit(n % 10));
        r
    }
}

/// `n` in decimal, with a `-` sign when negative.
pub fn decimal_i64(n: i64) -> (r: Vec<char>)
    ensures
        r@ == signed_decimal(n as int),
{
    if n < 0 {
        let m: u64 = if n == i64::MIN {
            9223372036854775808u64
        } else {
            (-n) as u64
        };
        let mut r: Vec<char> = Vec::new();
        r.push('-');
        let d = decimal_u64(m);
        push_all(&mut r, d.as_slice());
        assert(r@ =~= seq!['-'] + decimal((-n) as nat));
        r
    } else {
        decimal_u64(n as u64)
    }
}

/// An ASCII decimal digit.
pub open spec fn is_digit(c: char) -> bool {
    48 <= (c as u32) <= 57
}

pub open spec fn digit_value(c: char) -> nat {
    ((c as u32) - 48) as nat
}

/// All characters of `s` are decimal digits.
pub open spec fn all_digits(s: Seq<char>) -> bool {
    forall|i: int| 0 <= i < s.len() ==> is_digit(#[trigger] s[i])
}

/// The number the digit string `s` denotes.
pub open spec fn digits_value(s: Seq<char>) -> nat
    decreases s.len(),
{
    if s.len() == 0 {
        0
    } else {
        digits_value(s.drop_last()) * 10 + digit_value(s.last())
    }
}

/// What `str::parse::<u32>` gives back: an optional `+`, then one or more
/// decimal digits whose value fits in 32 bits.
pub open spec fn parse_u32(s: Seq<char>) -> Option<u32> {
    let body = if s.len() > 0 && s[0] == '+' {
        s.drop_first()
    } else {
        s
    };
    if body.len() > 0 && all_digits(body) && digits_value(body) <= u32::MAX {
        Some(digits_value(body) as u32)
    } else {
        None
    }
}

proof fn lemma_digits_value_take(s: Seq<char>, k: int)
    requires
        0 <= k < s.len(),
    ensures
        digits_value(s.take(k + 1)) == digits_value(s.take(k)) * 10 + digit_value(s[k]),
{
    assert(s.take(k + 1).drop_last() =~= s.take(k));
}

proof fn lemma_digits_value_grows(s: Seq<char>, k: int)
    requires
        0 <= k <= s.len(),
    ensures
        digits_value(s.take(k)) <= digits_value(s),
    decreases s.len() - k,
{
    if k < s.len() {
        lemma_digits_value_take(s, k);
        lemma_digits_value_grows(s, k + 1);
    } else {
        assert(s.take(k) =~= s);
    }
}

/// `s` parsed as `str::parse::<u32>` does.
pub fn parse_u32_chars(s: &[char]) -> (r: Option<u32>)
    ensures
        r == parse_u32(s@),
{
    let start: usize = if s.len() > 0 && s[0] == '+' {
        1
    } else {
        0
    };
    let ghost body = if s@.len() > 0 && s@[0] == '+' {
        s@.drop_first()
    } else {
        s@
    };
    assert(body =~= s@.subrange(start as int, s@.len() as int));
    if start == s.len() {
        return None;
    }
    let mut acc: u64 = 0;
    let mut k: usize = start;
    while k < s.len()
        invariant
            start <= k <= s@.len(),
            body == (if s@.len() > 0 && s@[0] == '+' {
                s@.drop_first()
            } else {
                s@
            }),
            body == s@.subrange(start as int, s@.len() as int),
            all_digits(body.take(k - start)),
            acc == digits_value(body.take(k - start)),
            acc <= u32::MAX,
        decreases s@.len() - k,
    {
        let c = s[k];
        let u = c as u32;
        if u < 48 || u > 57 {
            assert(!is_digit(body[k - start]));
            return None;
        }
        proof {
            lemma_digits_value_take(body, k - start);
            assert(body.take(k - start + 1) =~= body.take(k - start).push(c));
        }
        let next: u64 = acc * 10 + ((u - 48) as u64);
        if next > 0xffff_ffff {
            proof {
                lemma_digits_value_grows(body, k - start + 1);
            }
            return None;
        }
        acc = next;
        k = k + 1;
    }
    assert(body.take(k - start) =~= body);
    Some(acc as u32)
}

/// Every digit string written by `decimal` reads back as the same number.
pub proof fn lemma_decimal_digits(n: nat)
    ensures
        all_digits(decimal(n)),
        digits_value(decimal(n)) == n,
        decimal(n).len() > 0,
    decreases n,
{
    if n >= 10 {
        lemma_decimal_digits(n / 10);
        let d = decimal(n / 10);
        let e = d.push(digit_char((n % 10) as int));
        assert(e.drop_last() =~= d);
        assert(digit_value(digit_char((n % 10) as int)) == n % 10);
        assert forall|i: int| 0 <= i < e.len() implies is_digit(#[trigger] e[i]) by {
            if i == e.len() - 1 {
            } else {
                assert(e[i] == d[i]);
            }
        }
        assert(n == (n / 10) * 10 + n % 10);
        assert(digits_value(e) == digits_value(d) * 10 + digit_value(e.last()));
    } else {
        let e = seq![digit_char(n as int)];
        assert(e.drop_last() =~= Seq::<char>::empty());
        assert(digit_value(digit_char(n as int)) == n);
        assert(digits_value(e) == digits_value(e.drop_last()) * 10 + digit_value(e.last()));
    }
}

/// A value written as `decimal(n)` parses back to `n` (what `pidfile_write`
/// records, `parse_u32` recovers).
pub proof fn lemma_parse_decimal(n: u32)
    ensures
        parse_u32(decimal(n as nat)) == Some(n),
{
    lemma_decimal_digits(n as nat);
    let d = decimal(n as nat);
    assert(is_digit(d[0]));
}

/// ASCII upper-case letters mapped to lower case, everything else kept.
pub open spec fn ascii_lower(c: char) -> char {
    if 65 <= (c as u32) <= 90 {
        ((c as u32) + 32) as char
    } else {
        c
    }
}

/// `to_ascii_lowercase` on a character sequence.
pub open spec fn ascii_lower_seq(s: Seq<char>) -> Seq<char> {
    s.map_values(|c: char| ascii_lower(c))
}

pub fn ascii_lower_char(c: char) -> (r: char)
    ensures
        r == ascii_lower(c),
{
    let u = c as u32;
    if 65 <= u && u <= 90 {
        let b: u8 = (u as u8) + 32;
        b as char
    } else {
        c
    }
}

pub fn ascii_lower_chars(s: &[char]) -> (r: Vec<char>)
    ensures
        r@ == ascii_lower_seq(s@),
{
    let mut r: Vec<char> = Vec::new();
    let mut k: usize = 0;
    while k < s.len()
        invariant
            k <= s@.len(),
            r@ == ascii_lower_seq(s@.take(k as int)),
        decreases s@.len() - k,
    {
        r.push(ascii_lower_char(s[k]));
        proof {
            assert(r@ =~= ascii_lower_seq(s@.take(k + 1)));
        }
        k = k + 1;
    }
    assert(s@.take(k as int) =~= s@);
    r
}

/// Index of the first `c` at or after `k` in `s`, or the length of `s`.
pub open spec fn next_index_of(s: Seq<char>, c: char, k: int) -> int
    decreases s.len() - k,
{
    if k < 0 || k >= s.len() {
        s.len() as int
    } else if s[k] == c {
        k
    } else {
        next_index_of(s, c, k + 1)
    }
}

pub proof fn lemma_next_index_of(s: Seq<char>, c: char, k: int)
    requires
        0 <= k <= s.len(),
    ensures
        k <= next_index_of(s, c, k) <= s.len(),
        next_index_of(s, c, k) < s.len() ==> s[next_index_of(s, c, k)] == c,
        forall|j: int| k <= j < next_index_of(s, c, k) ==> s[j] != c,
    decreases s.len() - k,
{
    if k < s.len() && s[k] != c {
        lemma_next_index_of(s, c, k + 1);
    }
}

/// A line with one trailing carriage return removed.
pub open spec fn strip_cr(l: Seq<char>) -> Seq<char> {
    if l.len() > 0 && l.last() == '\r' {
        l.drop_last()
    } else {
        l
    }
}

/// The lines of `s[k..]`, as `str::lines` splits them: on `\n`, with a `\r`
/// before the `\n` dropped, and no empty line after a final `\n`.
pub open spec fn lines_from(s: Seq<char>, k: int) -> Seq<Seq<char>>
    decreases s.len() - k,
{
    if k < 0 || k >= s.len() {
        Seq::empty()
    } else {
        let e = next_index_of(s, '\n', k);
        proof {
            lemma_next_index_of(s, '\n', k);
        }
        if e < s.len() {
            seq![strip_cr(s.subrange(k, e))] + lines_from(s, e + 1)
        } else {
            seq![s.subrange(k, e)]
        }
    }
}

/// `str::lines`.
pub open spec fn lines(s: Seq<char>) -> Seq<Seq<char>> {
    lines_from(s, 0)
}

/// The views of a vector of character vectors.
pub open spec fn views(v: Seq<Vec<char>>) -> Seq<Seq<char>> {
    v.map_values(|x: Vec<char>| x@)
}

/// The lines of `s`, as `str::lines` gives them.
pub fn lines_of(s: &[char]) -> (r: Vec<Vec<char>>)
    ensures
        views(r@) == lines(s@),
{
    let mut r: Vec<Vec<char>> = Vec::new();
    let mut k: usize = 0;
    while k < s.len()
        invariant
            k <= s@.len(),
            views(r@) + lines_from(s@, k as int) == lines(s@),
        decreases s@.len() - k,
    {
        let mut e: usize = k;
        while e < s.len() && s[e] != '\n'
            invariant
                k <= e <= s@.len(),
                next_index_of(s@, '\n', k as int) == next_index_of(s@, '\n', e as int),
            decreases s@.len() - e,
        {
            e = e + 1;
        }
        proof {
            lemma_next_index_of(s@, '\n', k as int);
        }
        let ghost old_r = r@;
        if e < s.len() {
            let mut line = slice_chars(s, k, e);
            if line.len() > 0 && line[line.len() - 1] == '\r' {
                line.pop();
            }
            assert(line@ == strip_cr(s@.subrange(k as int, e as int)));
            r.push(line);
            proof {
                assert(views(r@) =~= views(old_r).push(strip_cr(s@.subrange(k as int, e as int))));
                assert(views(r@) + lines_from(s@, e + 1) =~= views(old_r) + lines_from(s@, k as int));
            }
            k = e + 1;
        } else {
            let line = slice_chars(s, k, e);
            r.push(line);
            proof {
                assert(views(r@) =~= views(old_r).push(s@.subrange(k as int, e as int)));
                assert(lines_from(s@, e as int) =~= Seq::<Seq<char>>::empty());
                assert(views(r@) + lines_from(s@, e as int) =~= views(old_r) + lines_from(s@, k as int));
            }
            k = e;
        }
    }
    proof {
        assert(lines_from(s@, k as int) =~= Seq::<Seq<char>>::empty());
        assert(views(r@) + Seq::<Seq<char>>::empty() =~= views(r@));
    }
    r
}

/// The pieces of `s[k..]` between the non-overlapping occurrences of `sep`
/// (`str::split` with a non-empty string pattern).
pub open spec fn split_from(s: Seq<char>, sep: Seq<char>, k: int) -> Seq<Seq<char>>
    decreases s.len() + 1 - k,
{
    if sep.len() == 0 || k < 0 || k > s.len() {
        seq![s.subrange(k, s.len() as int)]
    } else {
        match find_from(s, sep, k) {
            Some(i) => {
                proof {
                    lemma_find_from_bounds(s, sep, k);
                }
                seq![s.subrange(k, i)] + split_from(s, sep, i + sep.len())
            },
            None => seq![s.subrange(k, s.len() as int)],
        }
    }
}

/// `str::split` with a non-empty string pattern.
pub open spec fn split(s: Seq<char>, sep: Seq<char>) -> Seq<Seq<char>> {
    split_from(s, sep, 0)
}

/// `str::split` always yields at least one piece.
pub proof fn lemma_split_nonempty(s: Seq<char>, sep: Seq<char>)
    ensures
        split(s, sep).len() >= 1,
{
    reveal_with_fuel(split_from, 1);
}

/// The first index at or after `k` where `pat` occurs in `s`.
pub fn find_chars_from(s: &[char], pat: &[char], k: usize) -> (r: Option<usize>)
    requires
        pat@.len() > 0,
        k <= s@.len(),
    ensures
        match r {
            Some(i) => find_from(s@, pat@, k as int) == Some(i as int),
            None => find_from(s@, pat@, k as int) is None,
        },
{
    let mut j: usize = k;
    while j <= s.len()
        invariant
            pat@.len() > 0,
            k <= j,
            find_from(s@, pat@, k as int) == find_from(s@, pat@, j as int),
        decreases s@.len() + 1 - j,
    {
        if pat.len() > s.len() - j {
            return None;
        }
        if matches_at(s, pat, j) {
            return Some(j);
        }
        j = j + 1;
    }
    None
}

/// The pieces of `s` between occurrences of the non-empty `sep`.
pub fn split_chars(s: &[char], sep: &[char]) -> (r: Vec<Vec<char>>)
    requires
        sep@.len() > 0,
    ensures
        views(r@) == split(s@, sep@),
{
    let mut r: Vec<Vec<char>> = Vec::new();
    let mut k: usize = 0;
    let n = s.len();
    loop
        invariant
            n == s@.len(),
            sep@.len() > 0,
            k <= s@.len(),
            views(r@) + split_from(s@, sep@, k as int) == split(s@, sep@),
        decreases s@.len() + 1 - k,
    {
        let ghost old_r = r@;
        match find_chars_from(s, sep, k) {
            Some(i) => {
                proof {
                    lemma_find_from_bounds(s@, sep@, k as int);
                    assert(occurs_at(s@, sep@, i as int));
                }
                r.push(slice_chars(s, k, i));
                proof {
                    assert(views(r@) =~= views(old_r).push(s@.subrange(k as int, i as int)));
                    assert(views(r@) + split_from(s@, sep@, i + sep@.len()) =~= views(old_r)
                        + split_from(s@, sep@, k as int));
                }
                k = i + sep.len();
            },
            None => {
                r.push(slice_chars(s, k, s.len()));
                proof {
                    assert(views(r@) =~= views(old_r) + split_from(s@, sep@, k as int));
                }
                return r;
            },
        }
    }
}

/// `str::split_once` with a character: the text before and after the first `c`.
pub open spec fn split_once(s: Seq<char>, c: char) -> Option<(Seq<char>, Seq<char>)> {
    let i = next_index_of(s, c, 0);
    if i < s.len() {
        Some((s.subrange(0, i), s.subrange(i + 1, s.len() as int)))
    } else {
        None
    }
}

pub fn split_once_chars(s: &[char], c: char) -> (r: Option<(Vec<char>, Vec<char>)>)
    ensures
        match r {
            Some((a, b)) => split_once(s@, c) == Some((a@, b@)),
            None => split_once(s@, c) is None,
        },
{
    let mut i: usize = 0;
    while i < s.len() && s[i] != c
        invariant
            i <= s@.len(),
            next_index_of(s@, c, 0) == next_index_of(s@, c, i as int),
        decreases s@.len() - i,
    {
        i = i + 1;
    }
    if i < s.len() {
        Some((slice_chars(s, 0, i), slice_chars(s, i + 1, s.len())))
    } else {
        None
    }
}

/// `a <= b` in the order of `String`'s `Ord` (byte order of UTF-8, which is
/// code-point order).
pub open spec fn lex_le(a: Seq<char>, b: Seq<char>) -> bool
    decreases a.len(),
{
    if a.len() == 0 {
        true
    } else if b.len() == 0 {
        false
    } else if a[0] == b[0] {
        lex_le(a.drop_first(), b.drop_first())
    } else {
        (a[0] as u32) < (b[0] as u32)
    }
}

pub fn lex_le_chars(a: &[char], b: &[char]) -> (r: bool)
    ensures
        r == lex_le(a@, b@),
{
    let mut k: usize = 0;
    assert(a@.skip(0) =~= a@);
    assert(b@.skip(0) =~= b@);
    while k < a.len() && k < b.len() && a[k] == b[k]
        invariant
            k <= a@.len(),
            k <= b@.len(),
            lex_le(a@, b@) == lex_le(a@.skip(k as int), b@.skip(k as int)),
        decreases a@.len() - k,
    {
        proof {
            assert(a@.skip(k as int).drop_first() =~= a@.skip(k + 1));
            assert(b@.skip(k as int).drop_first() =~= b@.skip(k + 1));
        }
        k = k + 1;
    }
    if k == a.len() {
        true
    } else if k == b.len() {
        false
    } else {
        assert(a@.skip(k as int)[0] == a@[k as int]);
        assert(b@.skip(k as int)[0] == b@[k as int]);
        (a[k] as u32) < (b[k] as u32)
    }
}

pub proof fn lemma_lex_total(a: Seq<char>, b: Seq<char>)
    ensures
        lex_le(a, b) || lex_le(b, a),
    decreases a.len(),
{
    if a.len() > 0 && b.len() > 0 {
        if a[0] == b[0] {
            lemma_lex_total(a.drop_first(), b.drop_first());
        } else {
            vstd::utf8::char_u32_cast(a[0], a[0] as u32);
            vstd::utf8::char_u32_cast(b[0], b[0] as u32);
        }
    }
}

pub proof fn lemma_lex_trans(a: Seq<char>, b: Seq<char>, c: Seq<char>)
    requires
        lex_le(a, b),
        lex_le(b, c),
    ensures
        lex_le(a, c),
    decreases a.len(),
{
    if a.len() > 0 && b.len() > 0 && c.len() > 0 {
        vstd::utf8::char_u32_cast(a[0], a[0] as u32);
        vstd::utf8::char_u32_cast(b[0], b[0] as u32);
        vstd::utf8::char_u32_cast(c[0], c[0] as u32);
        if a[0] == b[0] && b[0] == c[0] {
            lemma_lex_trans(a.drop_first(), b.drop_first(), c.drop_first());
        }
    }
}

pub proof fn lemma_lex_antisym(a: Seq<char>, b: Seq<char>)
    requires
        lex_le(a, b),
        lex_le(b, a),
    ensures
        a == b,
    decreases a.len(),
{
    if a.len() > 0 && b.len() > 0 {
        if a[0] == b[0] {
            lemma_lex_antisym(a.drop_first(), b.drop_first());
            assert(a =~= seq![a[0]] + a.drop_first());
            assert(b =~= seq![b[0]] + b.drop_first());
        } else {
            vstd::utf8::char_u32_cast(a[0], a[0] as u32);
            vstd::utf8::char_u32_cast(b[0], b[0] as u32);
        }
    } else {
        assert(a =~= b);
    }
}

pub proof fn lemma_lex_refl(a: Seq<char>)
    ensures
        lex_le(a, a),
    decreases a.len(),
{
    if a.len() > 0 {
        lemma_lex_refl(a.drop_first());
    }
}

/// The first index in `s` whose element is `<= x`, or the length.
pub open spec fn first_not_above(s: Seq<Seq<char>>, x: Seq<char>, k: int) -> int
    decreases s.len() - k,
{
    if k < 0 || k >= s.len() {
        s.len() as int
    } else if lex_le(s[k], x) {
        k
    } else {
        first_not_above(s, x, k + 1)
    }
}

proof fn lemma_first_not_above(s: Seq<Seq<char>>, x: Seq<char>, k: int)
    requires
        0 <= k <= s.len(),
    ensures
        k <= first_not_above(s, x, k) <= s.len(),
        forall|j: int| k <= j < first_not_above(s, x, k) ==> !lex_le(#[trigger] s[j], x),
        first_not_above(s, x, k) < s.len() ==> lex_le(s[first_not_above(s, x, k)], x),
    decreases s.len() - k,
{
    if k < s.len() && !lex_le(s[k], x) {
        lemma_first_not_above(s, x, k + 1);
    }
}

/// Descending insertion of `x` into `s`: before the first element not above it.
pub open spec fn insert_desc(s: Seq<Seq<char>>, x: Seq<char>) -> Seq<Seq<char>> {
    s.insert(first_not_above(s, x, 0), x)
}

/// `s` sorted from the greatest to the least (`sort` followed by `reverse`).
pub open spec fn sort_desc(s: Seq<Seq<char>>) -> Seq<Seq<char>>
    decreases s.len(),
{
    if s.len() == 0 {
        s
    } else {
        insert_desc(sort_desc(s.drop_last()), s.last())
    }
}

/// Sorted from the greatest to the least.
pub open spec fn is_sorted_desc(s: Seq<Seq<char>>) -> bool {
    forall|i: int, j: int| 0 <= i < j < s.len() ==> lex_le(#[trigger] s[j], #[trigger] s[i])
}

proof fn lemma_insert_desc_sorted(s: Seq<Seq<char>>, x: Seq<char>)
    requires
        is_sorted_desc(s),
    ensures
        is_sorted_desc(insert_desc(s, x)),
        insert_desc(s, x).to_multiset() =~= s.to_multiset().insert(x),
{
    broadcast use vstd::seq_lib::group_to_multiset_ensures;
    let p = first_not_above(s, x, 0);
    lemma_first_not_above(s, x, 0);
    let t = insert_desc(s, x);
    assert forall|i: int, j: int| 0 <= i < j < t.len() implies lex_le(#[trigger] t[j], #[trigger] t[i]) by {
        if j < p {
        } else if j == p {
            lemma_lex_total(s[i], x);
        } else if i == p {
            if j - 1 > p {
                lemma_lex_trans(s[j - 1], s[p], x);
            }
        } else if i < p {
        } else {
        }
    }
    assert(t.remove(p) =~= s);
    assert(t[p] == x);
}

/// Sorting keeps the elements and orders them from the greatest to the least.
pub proof fn lemma_sort_desc(s: Seq<Seq<char>>)
    ensures
        is_sorted_desc(sort_desc(s)),
        sort_desc(s).to_multiset() =~= s.to_multiset(),
    decreases s.len(),
{
    broadcast use vstd::seq_lib::group_to_multiset_ensures;
    if s.len() > 0 {
        lemma_sort_desc(s.drop_last());
        lemma_insert_desc_sorted(sort_desc(s.drop_last()), s.last());
        assert(s.drop_last().push(s.last()) =~= s);
    }
}

/// The character vectors sorted from the greatest to the least.
pub fn sort_desc_chars(v: Vec<Vec<char>>) -> (r: Vec<Vec<char>>)
    ensures
        views(r@) == sort_desc(views(v@)),
{
    let mut r: Vec<Vec<char>> = Vec::new();
    let mut k: usize = 0;
    while k < v.len()
        invariant
            k <= v@.len(),
            views(r@) == sort_desc(views(v@).take(k as int)),
        decreases v@.len() - k,
    {
        let x = &v[k];
        let mut p: usize = 0;
        while p < r.len() && !lex_le_chars(r[p].as_slice(), x.as_slice())
            invariant
                p <= r@.len(),
                first_not_above(views(r@), x@, 0) == first_not_above(views(r@), x@, p as int),
            decreases r@.len() - p,
        {
            p = p + 1;
        }
        proof {
            lemma_first_not_above(views(r@), x@, p as int);
            assert(views(v@).take(k + 1).drop_last() =~= views(v@).take(k as int));
        }
        let ghost old_r = r@;
        let y = slice_chars(x.as_slice(), 0, x.len());
        proof {
            assert(y@ =~= x@);
        }
        r.insert(p, y);
        proof {
            assert(views(r@) =~= views(old_r).insert(p as int, x@));
        }
        k = k + 1;
    }
    assert(views(v@).take(k as int) =~= views(v@));
    r
}

/// Whether two character vectors hold the same characters.
pub fn chars_eq(a: &[char], b: &[char]) -> (r: bool)
    ensures
        r == (a@ == b@),
{
    if a.len() != b.len() {
        return false;
    }
    let mut k: usize = 0;
    while k < a.len()
        invariant
            a@.len() == b@.len(),
            k <= a@.len(),
            forall|m: int| 0 <= m < k ==> a@[m] == b@[m],
        decreases a@.len() - k,
    {
        if a[k] != b[k] {
            return false;
        }
        k = k + 1;
    }
    assert(a@ =~= b@);
    true
}

/// Whether `s` holds the character `c`.
pub fn has_char(s: &[char], c: char) -> (r: bool)
    ensures
        r == s@.contains(c),
{
    let mut k: usize = 0;
    while k < s.len()
        invariant
            k <= s@.len(),
            forall|m: int| 0 <= m < k ==> s@[m] != c,
        decreases s@.len() - k,
    {
        if s[k] == c {
            return true;
        }
        k = k + 1;
    }
    false
}

/// The characters of `s`, in order.
pub fn chars_of(s: &str) -> (r: Vec<char>)
    ensures
        r@ == s@,
{
    let mut r: Vec<char> = Vec::new();
    for c in it: s.chars()
        invariant
            r@ == it.seq().take(it.index() as int),
    {
        r.push(c);
        proof {
            assert(r@ =~= it.seq().take(it.index() + 1));
        }
    }
    r
}

/// The string made of `v` (a `char` slice collected into a `String`).
#[verifier::external_body]
pub(crate) fn string_of(v: &[char]) -> (r: String)
    ensures
        r@ == v@,
{
    v.iter().collect()
}

/// What `String::from_utf8_lossy` makes of `bytes`: the text they encode,
/// with each invalid sequence replaced by U+FFFD.
pub uninterp spec fn utf8_lossy(bytes: Seq<u8>) -> Seq<char>;

/// `String::from_utf8_lossy`. Its documentation promises that valid UTF-8
/// comes back unchanged; how invalid sequences are replaced is left unsaid.
#[verifier::external_body]
pub(crate) fn from_utf8_lossy(bytes: &[u8]) -> (r: String)
    ensures
        r@ == utf8_lossy(bytes@),
        vstd::utf8::valid_utf8(bytes@) ==> r@ == vstd::utf8::decode_utf8(bytes@),
{
    String::from_utf8_lossy(bytes).into_owned()
}

} // verus!

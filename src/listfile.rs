//! The upstream list file: one `host:port` per line.
//!
//! Reading splits the text at line feeds, trims blanks at both ends of each
//! line, skips empty lines and keeps the first of equal lines. Writing joins
//! the addresses with line feeds.
use vstd::prelude::*;
use vstd::string::StringExecFns;
use vstd::std_specs::iter::IteratorSpec;
use crate::text::{decimal, is_digit};

verus! {

broadcast use vstd::string::axiom_spec_iter, vstd::string::next_postcondition;

/// Characters trimmed from both ends of a line: the ASCII blanks only.
/// Other Unicode white space, such as U+00A0, stays part of the line.
pub open spec fn is_blank(c: char) -> bool {
    c == ' ' || c == '\t' || c == '\r' || c == '\x0b' || c == '\x0c'
}

pub open spec fn trim_start(s: Seq<char>) -> Seq<char>
    decreases s.len(),
{
    if s.len() > 0 && is_blank(s[0]) {
        trim_start(s.drop_first())
    } else {
        s
    }
}

pub open spec fn trim_end(s: Seq<char>) -> Seq<char>
    decreases s.len(),
{
    if s.len() > 0 && is_blank(s.last()) {
        trim_end(s.drop_last())
    } else {
        s
    }
}

pub open spec fn trim(s: Seq<char>) -> Seq<char> {
    trim_end(trim_start(s))
}

/// The finished lines of `s` and the line still open at its end.
pub open spec fn split_acc(s: Seq<char>) -> (Seq<Seq<char>>, Seq<char>)
    decreases s.len(),
{
    if s.len() == 0 {
        (Seq::empty(), Seq::empty())
    } else {
        let (done, cur) = split_acc(s.drop_last());
        if s.last() == '\n' {
            (done.push(cur), Seq::empty())
        } else {
            (done, cur.push(s.last()))
        }
    }
}

/// The lines of `s`, split at line feeds.
pub open spec fn split_lines(s: Seq<char>) -> Seq<Seq<char>> {
    split_acc(s).0.push(split_acc(s).1)
}

/// Trimmed non-empty lines, the first of equal lines kept.
pub open spec fn collect(lines: Seq<Seq<char>>) -> Seq<Seq<char>>
    decreases lines.len(),
{
    if lines.len() == 0 {
        Seq::empty()
    } else {
        let prev = collect(lines.drop_last());
        let t = trim(lines.last());
        if t.len() == 0 || prev.contains(t) {
            prev
        } else {
            prev.push(t)
        }
    }
}

/// The addresses a list file holds.
pub open spec fn parse_list_spec(s: Seq<char>) -> Seq<Seq<char>> {
    collect(split_lines(s))
}

/// The text of a list file holding `lines`.
pub open spec fn join_lines(lines: Seq<Seq<char>>) -> Seq<char>
    decreases lines.len(),
{
    if lines.len() == 0 {
        Seq::empty()
    } else if lines.len() == 1 {
        lines[0]
    } else {
        join_lines(lines.drop_last()) + seq!['\n'] + lines.last()
    }
}

fn chars_of(s: &str) -> (r: Vec<char>)
    ensures
        r@ == s@,
{
    let n = s.unicode_len();
    let mut it = s.chars();
    let mut out: Vec<char> = Vec::new();
    let mut i: usize = 0;
    while i < n
        invariant
            n == s@.len(),
            i == out@.len(),
            i <= n,
            out@ + it.remaining() == s@,
        decreases n - i,
    {
        match it.next() {
            Some(c) => {
                out.push(c);
                assert(out@ + it.remaining() =~= s@);
            },
            None => {
                assert(out@ =~= s@);
            },
        }
        i = i + 1;
    }
    assert(out@ =~= s@);
    out
}

fn is_blank_exec(c: char) -> (r: bool)
    ensures
        r == is_blank(c),
{
    c == ' ' || c == '\t' || c == '\r' || c == '\x0b' || c == '\x0c'
}

/// Bounds of `trim(s[a..b])` within `s`.
fn trim_bounds(s: &Vec<char>, a: usize, b: usize) -> (r: (usize, usize))
    requires
        a <= b <= s@.len(),
    ensures
        a <= r.0 <= r.1 <= b,
        s@.subrange(r.0 as int, r.1 as int) == trim(s@.subrange(a as int, b as int)),
{
    let mut lo = a;
    while lo < b && is_blank_exec(s[lo])
        invariant
            a <= lo <= b <= s@.len(),
            trim_start(s@.subrange(a as int, b as int)) == trim_start(s@.subrange(lo as int, b as int)),
        decreases b - lo,
    {
        assert(s@.subrange(lo as int, b as int).drop_first() =~= s@.subrange(lo + 1, b as int));
        lo = lo + 1;
    }
    let mut hi = b;
    assert(trim_start(s@.subrange(lo as int, b as int)) == s@.subrange(lo as int, b as int));
    while hi > lo && is_blank_exec(s[hi - 1])
        invariant
            a <= lo <= hi <= b <= s@.len(),
            trim(s@.subrange(a as int, b as int)) == trim_end(s@.subrange(lo as int, hi as int)),
        decreases hi - lo,
    {
        assert(s@.subrange(lo as int, hi as int).drop_last() =~= s@.subrange(lo as int, hi - 1));
        hi = hi - 1;
    }
    (lo, hi)
}

fn contains_string(v: &Vec<String>, t: &String) -> (r: bool)
    ensures
        r == v@.map_values(|x: String| x@).contains(t@),
{
    let ghost m = v@.map_values(|x: String| x@);
    let mut i: usize = 0;
    while i < v.len()
        invariant
            m == v@.map_values(|x: String| x@),
            i <= v@.len(),
            forall|k: int| 0 <= k < i ==> m[k] != t@,
        decreases v@.len() - i,
    {
        if v[i] == *t {
            assert(m[i as int] == t@);
            return true;
        }
        i = i + 1;
    }
    false
}

/// Reads the addresses of a list file, in the order they first appear.
pub fn parse_proxy_list(text: &str) -> (r: Vec<String>)
    ensures
        r@.map_values(|x: String| x@) == parse_list_spec(text@),
{
    let s = chars_of(text);
    let n = s.len();
    let mut out: Vec<String> = Vec::new();
    let mut start: usize = 0;
    let mut i: usize = 0;
    while i < n
        invariant
            n == s@.len(),
            s@ == text@,
            start <= i <= n,
            split_acc(s@.subrange(0, i as int)) == (split_acc(s@.subrange(0, i as int)).0, s@.subrange(
                start as int,
                i as int,
            )),
            out@.map_values(|x: String| x@) == collect(split_acc(s@.subrange(0, i as int)).0),
        decreases n - i,
    {
        let ghost pre = s@.subrange(0, i as int);
        assert(s@.subrange(0, i + 1).drop_last() =~= pre);
        if s[i] == '\n' {
            let ghost done = split_acc(pre).0;
            let ghost line = s@.subrange(start as int, i as int);
            assert(split_acc(s@.subrange(0, i + 1)).0 == done.push(line));
            assert(done.push(line).drop_last() =~= done);
            self_push_line(&mut out, &s, text, start, i);
            start = i + 1;
            assert(s@.subrange(start as int, i + 1) =~= Seq::<char>::empty());
        } else {
            assert(s@.subrange(start as int, i + 1) =~= s@.subrange(start as int, i as int).push(s[i as int]));
        }
        i = i + 1;
    }
    assert(s@.subrange(0, n as int) =~= s@);
    let ghost done = split_acc(s@).0;
    let ghost line = s@.subrange(start as int, n as int);
    assert(split_lines(s@) == done.push(line));
    assert(done.push(line).drop_last() =~= done);
    self_push_line(&mut out, &s, text, start, n);
    out
}

/// Adds the trimmed line `s[start..end]` to `out` unless it is empty or
/// already there.
fn self_push_line(out: &mut Vec<String>, s: &Vec<char>, text: &str, start: usize, end: usize)
    requires
        start <= end <= s@.len(),
        s@ == text@,
    ensures
        final(out)@.map_values(|x: String| x@) == ({
            let prev = old(out)@.map_values(|x: String| x@);
            let t = trim(s@.subrange(start as int, end as int));
            if t.len() == 0 || prev.contains(t) {
                prev
            } else {
                prev.push(t)
            }
        }),
{
    let (lo, hi) = trim_bounds(s, start, end);
    if lo < hi {
        let line = text.substring_char(lo, hi).to_owned();
        if !contains_string(out, &line) {
            out.push(line);
            assert(out@.map_values(|x: String| x@) =~= old(out)@.map_values(|x: String| x@).push(
                line@,
            ));
        }
    }
}

/// Writes addresses as the text of a list file.
pub fn render_proxy_list(lines: &Vec<String>) -> (r: String)
    ensures
        r@ == join_lines(lines@.map_values(|x: String| x@)),
{
    let ghost m = lines@.map_values(|x: String| x@);
    let mut out = String::new();
    let mut i: usize = 0;
    while i < lines.len()
        invariant
            m == lines@.map_values(|x: String| x@),
            i <= lines@.len(),
            out@ == join_lines(m.subrange(0, i as int)),
        decreases lines@.len() - i,
    {
        proof {
            reveal_strlit("\n");
        }
        assert(m.subrange(0, i + 1).drop_last() =~= m.subrange(0, i as int));
        if i > 0 {
            out.append("\n");
        }
        out.append(lines[i].as_str());
        proof {
            if i == 0 {
                assert(out@ =~= join_lines(m.subrange(0, 1)));
            } else {
                assert(out@ =~= join_lines(m.subrange(0, i + 1)));
            }
        }
        i = i + 1;
    }
    assert(m.subrange(0, lines@.len() as int) =~= m);
    out
}

/// A line that reads back as itself: not empty, no line feed, no blank at
/// either end.
pub open spec fn clean_line(l: Seq<char>) -> bool {
    &&& l.len() > 0
    &&& !l.contains('\n')
    &&& !is_blank(l[0])
    &&& !is_blank(l.last())
}

proof fn lemma_trim_clean(l: Seq<char>)
    requires
        clean_line(l),
    ensures
        trim(l) == l,
{
}

proof fn lemma_split_append(a: Seq<char>, b: Seq<char>)
    requires
        !b.contains('\n'),
    ensures
        split_acc(a + b) == (split_acc(a).0, split_acc(a).1 + b),
    decreases b.len(),
{
    if b.len() == 0 {
        assert(a + b =~= a);
        assert(split_acc(a).1 + b =~= split_acc(a).1);
    } else {
        let b0 = b.drop_last();
        assert(!b0.contains('\n')) by {
            if b0.contains('\n') {
                let k = choose|k: int| 0 <= k < b0.len() && b0[k] == '\n';
                assert(b[k] == '\n');
            }
        }
        lemma_split_append(a, b0);
        assert((a + b).drop_last() =~= a + b0);
        assert(b.last() != '\n') by {
            assert(b[b.len() - 1] == b.last());
        }
        assert((split_acc(a).1 + b0).push(b.last()) =~= split_acc(a).1 + b);
    }
}

proof fn lemma_split_join(ls: Seq<Seq<char>>)
    requires
        ls.len() >= 1,
        forall|k: int| 0 <= k < ls.len() ==> !(#[trigger] ls[k]).contains('\n'),
    ensures
        split_lines(join_lines(ls)) == ls,
    decreases ls.len(),
{
    if ls.len() == 1 {
        lemma_split_append(Seq::empty(), ls[0]);
        assert(Seq::<char>::empty() + ls[0] =~= ls[0]);
        assert(Seq::<char>::empty() + ls[0] =~= ls[0]);
        assert(split_lines(ls[0]) =~= ls);
    } else {
        let rest = ls.drop_last();
        lemma_split_join(rest);
        let j = join_lines(rest);
        let jn = j + seq!['\n'];
        assert(jn.drop_last() =~= j);
        assert(split_acc(jn) == (split_lines(j), Seq::<char>::empty()));
        lemma_split_append(jn, ls.last());
        assert(join_lines(ls) == jn + ls.last());
        assert(Seq::<char>::empty() + ls.last() =~= ls.last());
        assert(split_lines(join_lines(ls)) =~= rest.push(ls.last()));
    }
}

proof fn lemma_collect_clean(ls: Seq<Seq<char>>)
    requires
        forall|k: int| 0 <= k < ls.len() ==> clean_line(#[trigger] ls[k]),
    ensures
        forall|x: Seq<char>| collect(ls).contains(x) <==> ls.contains(x),
    decreases ls.len(),
{
    if ls.len() > 0 {
        let rest = ls.drop_last();
        lemma_collect_clean(rest);
        lemma_trim_clean(ls.last());
        assert forall|x: Seq<char>| collect(ls).contains(x) <==> ls.contains(x) by {
            if ls.contains(x) && x != ls.last() {
                let k = choose|k: int| 0 <= k < ls.len() && ls[k] == x;
                assert(rest[k] == x);
            }
            if rest.contains(x) {
                let k = choose|k: int| 0 <= k < rest.len() && rest[k] == x;
                assert(ls[k] == x);
            }
            if x == ls.last() {
                assert(ls[ls.len() - 1] == x);
            }
            if collect(ls).contains(x) && !collect(rest).contains(x) {
                let k = choose|k: int| 0 <= k < collect(ls).len() && collect(ls)[k] == x;
                if k < collect(rest).len() {
                    assert(collect(rest)[k] == x);
                }
            }
            if collect(rest).contains(x) && collect(ls) != collect(rest) {
                let k = choose|k: int| 0 <= k < collect(rest).len() && collect(rest)[k] == x;
                assert(collect(ls)[k] == x);
            }
            if x == ls.last() && collect(ls) != collect(rest) {
                assert(collect(ls)[collect(ls).len() - 1] == x);
            }
        }
    }
}

/// Writing clean lines to a list file and reading it back gives the same
/// set of lines.
pub proof fn lemma_list_round_trip(ls: Seq<Seq<char>>)
    requires
        forall|k: int| 0 <= k < ls.len() ==> clean_line(#[trigger] ls[k]),
    ensures
        parse_list_spec(join_lines(ls)).to_set() == ls.to_set(),
{
    if ls.len() == 0 {
        let e = Seq::<char>::empty();
        assert(join_lines(ls) == e);
        assert(trim_start(e) == e);
        assert(trim_end(e) == e);
        assert(trim(e) == e);
        assert(split_lines(e) =~= seq![e]);
        assert(seq![e].last() == e);
        assert(collect(seq![e]) == collect(seq![e].drop_last()));
        assert(seq![Seq::<char>::empty()].drop_last() =~= Seq::<Seq<char>>::empty());
        assert(parse_list_spec(join_lines(ls)) =~= Seq::<Seq<char>>::empty());
    } else {
        assert forall|k: int| 0 <= k < ls.len() implies !(#[trigger] ls[k]).contains('\n') by {
            assert(clean_line(ls[k]));
        }
        lemma_split_join(ls);
        lemma_collect_clean(ls);
    }
    assert(parse_list_spec(join_lines(ls)).to_set() =~= ls.to_set());
}

pub open spec fn digit_value(c: char) -> int {
    c as int - '0' as int
}

/// The number a string of decimal digits stands for.
pub open spec fn digits_value(d: Seq<char>) -> nat
    decreases d.len(),
{
    if d.len() == 0 {
        0
    } else {
        (digits_value(d.drop_last()) * 10 + digit_value(d.last())) as nat
    }
}

pub open spec fn pow10(m: nat) -> nat
    decreases m,
{
    if m == 0 {
        1
    } else {
        10 * pow10((m - 1) as nat)
    }
}

/// Index of the last ':' of `s`, or -1.
pub open spec fn last_colon(s: Seq<char>) -> int
    decreases s.len(),
{
    if s.len() == 0 {
        -1
    } else if s.last() == ':' {
        s.len() - 1
    } else {
        last_colon(s.drop_last())
    }
}

/// Host and port of a `host:port` line: the host is what comes before the
/// last ':' and may not be empty; the port is one to five decimal digits
/// naming a port from 1 to 65535.
pub open spec fn parse_address_spec(s: Seq<char>) -> Option<(Seq<char>, u16)> {
    let k = last_colon(s);
    let d = s.subrange(k + 1, s.len() as int);
    if k <= 0 || d.len() == 0 || d.len() > 5 || !(forall|i: int| 0 <= i < d.len() ==> is_digit(#[trigger] d[i]))
        || digits_value(d) == 0 || digits_value(d) > 65535 {
        None
    } else {
        Some((s.subrange(0, k), digits_value(d) as u16))
    }
}

proof fn lemma_pow10_small()
    ensures
        pow10(0) == 1,
        pow10(1) == 10,
        pow10(2) == 100,
        pow10(3) == 1000,
        pow10(4) == 10000,
        pow10(5) == 100000,
{
    assert(pow10(0) == 1);
    assert(pow10(1) == 10);
    assert(pow10(2) == 100);
    assert(pow10(3) == 1000);
    assert(pow10(4) == 10000);
    assert(pow10(5) == 100000);
}

proof fn lemma_last_colon(s: Seq<char>)
    ensures
        -1 <= last_colon(s) < s.len(),
        last_colon(s) >= 0 ==> s[last_colon(s)] == ':',
        forall|i: int| last_colon(s) < i < s.len() ==> s[i] != ':',
    decreases s.len(),
{
    if s.len() > 0 && s.last() != ':' {
        lemma_last_colon(s.drop_last());
        assert forall|i: int| last_colon(s) < i < s.len() implies s[i] != ':' by {
            if i < s.len() - 1 {
                assert(s.drop_last()[i] == s[i]);
            }
        }
    }
}

/// Splits a `host:port` line of the list file.
pub fn parse_address(line: &str) -> (r: Option<(String, u16)>)
    ensures
        match r {
            Some((h, p)) => parse_address_spec(line@) == Some((h@, p)),
            None => parse_address_spec(line@) is None,
        },
{
    let s = chars_of(line);
    let n = s.len();
    proof {
        lemma_last_colon(s@);
        lemma_pow10_small();
    }
    let mut k: usize = n;
    while k > 0 && s[k - 1] != ':'
        invariant
            k <= n == s@.len(),
            forall|i: int| k <= i < n ==> s@[i] != ':',
        decreases k,
    {
        k = k - 1;
    }
    if k == 0 {
        assert(last_colon(s@) == -1);
        return None;
    }
    let colon = k - 1;
    assert(last_colon(s@) == colon);
    let ghost d = s@.subrange(colon + 1, n as int);
    if colon == 0 || n - k == 0 || n - k > 5 {
        return None;
    }
    let mut acc: u64 = 0;
    let mut i: usize = k;
    while i < n
        invariant
            k <= i <= n == s@.len(),
            n - k <= 5,
            1 <= k,
            s@ == line@,
            last_colon(s@) == k - 1,
            d == s@.subrange(k as int, n as int),
            forall|j: int| k <= j < i ==> is_digit(#[trigger] s@[j]),
            acc == digits_value(s@.subrange(k as int, i as int)),
            acc < pow10((i - k) as nat),
            pow10(0) == 1 && pow10(1) == 10 && pow10(2) == 100 && pow10(3) == 1000 && pow10(4)
                == 10000 && pow10(5) == 100000,
        decreases n - i,
    {
        let c = s[i];
        if !('0' <= c && c <= '9') {
            assert(!is_digit(d[i - k]));
            return None;
        }
        assert(s@.subrange(k as int, i + 1).drop_last() =~= s@.subrange(k as int, i as int));
        acc = acc * 10 + (c as u64 - '0' as u64);
        i = i + 1;
    }
    assert(s@.subrange(k as int, n as int) =~= d);
    if acc == 0 || acc > 65535 {
        return None;
    }
    let host = line.substring_char(0, colon).to_owned();
    Some((host, acc as u16))
}

proof fn lemma_digit_value(d: nat)
    requires
        d < 10,
    ensures
        digit_value(crate::text::digit_char(d)) == d,
        is_digit(crate::text::digit_char(d)),
        crate::text::digit_char(d) != ':',
{
    if d == 0 {
    } else if d == 1 {
    } else if d == 2 {
    } else if d == 3 {
    } else if d == 4 {
    } else if d == 5 {
    } else if d == 6 {
    } else if d == 7 {
    } else if d == 8 {
    } else {
    }
}

pub proof fn lemma_decimal_value(n: nat)
    ensures
        digits_value(decimal(n)) == n,
        forall|i: int| 0 <= i < decimal(n).len() ==> is_digit(#[trigger] decimal(n)[i]) && decimal(n)[i] != ':',
        decimal(n).len() >= 1,
    decreases n,
{
    if n < 10 {
        lemma_digit_value(n);
        let d = decimal(n);
        assert(d.drop_last() =~= Seq::<char>::empty());
        assert(digits_value(d.drop_last()) == 0);
        assert(d.last() == crate::text::digit_char(n));
        assert(digits_value(d) == digits_value(d.drop_last()) * 10 + digit_value(d.last()));
    } else {
        lemma_decimal_value(n / 10);
        lemma_digit_value(n % 10);
        let d = decimal(n);
        let p = decimal(n / 10);
        assert(d.drop_last() =~= p);
        assert(d.last() == crate::text::digit_char(n % 10));
        assert(digits_value(d) == digits_value(p) * 10 + digit_value(d.last()));
        vstd::arithmetic::div_mod::lemma_fundamental_div_mod(n as int, 10);
        assert forall|i: int| 0 <= i < d.len() implies is_digit(#[trigger] d[i]) && d[i] != ':' by {
            if i < p.len() {
                assert(d[i] == p[i]);
            }
        }
    }
}

proof fn lemma_decimal_len(n: nat, k: nat)
    requires
        k >= 1,
        n < pow10(k),
    ensures
        decimal(n).len() <= k,
    decreases n,
{
    if n >= 10 {
        assert(k >= 2) by {
            if k == 1 {
                assert(pow10(1) == 10 * pow10(0));
            }
        }
        assert(pow10(k) == 10 * pow10((k - 1) as nat));
        assert(n / 10 < pow10((k - 1) as nat));
        lemma_decimal_len(n / 10, (k - 1) as nat);
    }
}

proof fn lemma_last_colon_after(a: Seq<char>, b: Seq<char>)
    requires
        forall|i: int| 0 <= i < b.len() ==> b[i] != ':',
    ensures
        last_colon(a + b) == last_colon(a),
    decreases b.len(),
{
    if b.len() > 0 {
        assert((a + b).drop_last() =~= a + b.drop_last());
        assert((a + b).last() == b[b.len() - 1]);
        lemma_last_colon_after(a, b.drop_last());
    } else {
        assert(a + b =~= a);
    }
}

/// A `host:port` line written for a host that is not empty and a port that
/// is not zero splits back into that host and port.
pub proof fn lemma_address_parses_back(host: Seq<char>, port: u16)
    requires
        host.len() > 0,
        port != 0,
    ensures
        parse_address_spec(host + seq![':'] + decimal(port as nat)) == Some((host, port)),
{
    let d = decimal(port as nat);
    let s = host + seq![':'] + d;
    lemma_decimal_value(port as nat);
    lemma_last_colon_after(host + seq![':'], d);
    assert((host + seq![':']).drop_last() =~= host);
    assert(last_colon(host + seq![':']) == host.len());
    assert(s.subrange(host.len() + 1 as int, s.len() as int) =~= d);
    assert(s.subrange(0, host.len() as int) =~= host);
    lemma_pow10_small();
    lemma_decimal_len(port as nat, 5);
}

} // verus!

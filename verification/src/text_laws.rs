//! What the text operations and block extents are, stated by the shape of
//! their results: where a search lands, what a name is made of, where an
//! indented block ends, what follows the last separator.

use vstd::prelude::*;

use crate::blocks::{
    after_last, brace_end, brace_extent, indent_extent, scan_line, scan_lines, BlockEnd, Scan, indent_of, indent_scan, name_after_spec, run_len, stops, Stop,
};
use crate::text::{
    decimal, digit_char, first_match, line_len, lines_of, strip_cr, first_match_from, is_blank, is_ws, join_lines, lead_ws,
    matches_at, trim, trim_end,
};

verus! {

proof fn lemma_first_match_from_shape(s: Seq<char>, p: Seq<char>, i: int)
    requires
        0 <= i,
    ensures
        first_match_from(s, p, i) matches Some(k) ==> i <= k && matches_at(s, p, k) && forall|j: int|
            i <= j < k ==> !#[trigger] matches_at(s, p, j),
        first_match_from(s, p, i) is None ==> forall|j: int| i <= j ==> !#[trigger] matches_at(s, p, j),
    decreases s.len() - i,
{
    if !(i + p.len() > s.len()) && !matches_at(s, p, i) && i < s.len() {
        lemma_first_match_from_shape(s, p, i + 1);
    }
}

/// `first_match` finds the first occurrence: when it gives `k`, `p` occurs
/// at `k` and at no earlier position; when it gives nothing, `p` occurs
/// nowhere in `s`.
pub proof fn lemma_first_match_is_first(s: Seq<char>, p: Seq<char>)
    ensures
        first_match(s, p) matches Some(k) ==> 0 <= k && k + p.len() <= s.len() && s.subrange(k, k + p.len())
            == p && forall|j: int|
            0 <= j < k && j + p.len() <= s.len() ==> #[trigger] s.subrange(j, j + p.len()) != p,
        first_match(s, p) is None ==> forall|j: int|
            0 <= j && j + p.len() <= s.len() ==> #[trigger] s.subrange(j, j + p.len()) != p,
{
    lemma_first_match_from_shape(s, p, 0);
    if first_match(s, p) is None {
        assert forall|j: int| 0 <= j && j + p.len() <= s.len() implies #[trigger] s.subrange(j, j + p.len()) != p by {
            assert(!matches_at(s, p, j));
        }
    } else {
        let k = first_match(s, p)->0;
        assert forall|j: int| 0 <= j < k && j + p.len() <= s.len() implies #[trigger] s.subrange(j, j + p.len()) != p by {
            assert(!matches_at(s, p, j));
        }
    }
}

/// A run of `s` ends at the first character that stops it, or at the end.
pub proof fn lemma_run_len_shape(s: Seq<char>, stop: Stop)
    ensures
        run_len(s, stop) <= s.len(),
        forall|k: int| 0 <= k < run_len(s, stop) ==> !stops(stop, #[trigger] s[k]),
        run_len(s, stop) < s.len() ==> stops(stop, s[run_len(s, stop) as int]),
    decreases s.len(),
{
    if s.len() > 0 && !stops(stop, s[0]) {
        lemma_run_len_shape(s.drop_first(), stop);
        assert forall|k: int| 0 <= k < run_len(s, stop) implies !stops(stop, #[trigger] s[k]) by {
            if k > 0 {
                assert(s[k] == s.drop_first()[k - 1]);
            }
        }
    }
}

/// A character that ends a declared name.
pub open spec fn name_delim(c: char) -> bool {
    is_ws(c) || c == '(' || c == '<' || c == '{' || c == ':'
}

/// The name after a keyword is the longest run, right after the first
/// occurrence of the keyword, of characters other than whitespace, `(`, `<`,
/// `{` and `:`; it is `unknown` when the keyword does not occur.
pub proof fn lemma_name_after_shape(line: Seq<char>, kw: Seq<char>)
    ensures
        first_match(line, kw) is None ==> name_after_spec(line, kw) == "unknown"@,
        first_match(line, kw) matches Some(k) ==> ({
            let a = line.skip(k + kw.len());
            let r = name_after_spec(line, kw);
            &&& r.len() <= a.len()
            &&& r == a.take(r.len() as int)
            &&& forall|j: int| 0 <= j < r.len() ==> !name_delim(#[trigger] r[j])
            &&& r.len() == a.len() || name_delim(a[r.len() as int])
        }),
{
    if first_match(line, kw) is Some {
        let k = first_match(line, kw)->0;
        let a = line.skip(k + kw.len());
        lemma_run_len_shape(a, Stop::NameDelim);
        let r = name_after_spec(line, kw);
        assert forall|j: int| 0 <= j < r.len() implies !name_delim(#[trigger] r[j]) by {
            assert(r[j] == a[j]);
        }
    }
}

/// The indentation of a line is its run of leading spaces and tabs.
pub proof fn lemma_indent_shape(l: Seq<char>)
    ensures
        indent_of(l) <= l.len(),
        forall|k: int| 0 <= k < indent_of(l) ==> #[trigger] l[k] == ' ' || l[k] == '\t',
        indent_of(l) < l.len() ==> l[indent_of(l) as int] != ' ' && l[indent_of(l) as int] != '\t',
{
    lemma_run_len_shape(l, Stop::NotIndent);
}

proof fn lemma_indent_scan_shape(ls: Seq<Seq<char>>, i: int, base: nat, start: int)
    requires
        0 <= start < i <= ls.len(),
    ensures
        i - 1 <= indent_scan(ls, i, base, i - 1) < ls.len(),
        forall|k: int|
            i <= k <= indent_scan(ls, i, base, i - 1) ==> is_blank(#[trigger] ls[k]) || indent_of(ls[k]) > base,
        indent_scan(ls, i, base, i - 1) + 1 < ls.len() ==> !is_blank(ls[indent_scan(ls, i, base, i - 1) + 1])
            && indent_of(ls[indent_scan(ls, i, base, i - 1) + 1]) <= base,
    decreases ls.len() - i,
{
    if i < ls.len() {
        if is_blank(ls[i]) || indent_of(ls[i]) > base {
            lemma_indent_scan_shape(ls, i + 1, base, start);
        }
    }
}

/// The indented block headed by line `start` runs to line `e`: every line
/// after the header up to `e` is blank or indented deeper than the header,
/// and the line after `e`, if any, is neither; its text is the header and
/// those lines joined with newlines.
pub proof fn lemma_indent_extent_shape(ls: Seq<Seq<char>>, start: int)
    requires
        0 <= start < ls.len(),
    ensures
        ({
            let e = indent_extent(ls, start).1;
            let base = indent_of(ls[start]);
            &&& start <= e < ls.len()
            &&& forall|k: int| start < k <= e ==> is_blank(#[trigger] ls[k]) || indent_of(ls[k]) > base
            &&& e + 1 < ls.len() ==> !is_blank(ls[e + 1]) && indent_of(ls[e + 1]) <= base
            &&& indent_extent(ls, start).0 == join_lines(ls.subrange(start, e + 1))
        }),
{
    lemma_indent_scan_shape(ls, start + 1, indent_of(ls[start]), start);
}

/// What follows the last `c` in `s` is a suffix of `s` without `c`, preceded
/// in `s` by `c` unless it is all of `s`.
pub proof fn lemma_after_last_shape(s: Seq<char>, c: char)
    ensures
        ({
            let r = after_last(s, c);
            &&& r.len() <= s.len()
            &&& r == s.skip(s.len() - r.len())
            &&& forall|k: int| 0 <= k < r.len() ==> #[trigger] r[k] != c
            &&& r.len() == s.len() || s[s.len() - r.len() - 1] == c
        }),
    decreases s.len(),
{
    if s.len() > 0 && s.last() != c {
        lemma_after_last_shape(s.drop_last(), c);
        let r0 = after_last(s.drop_last(), c);
        let r = after_last(s, c);
        assert(r == r0.push(s.last()));
        assert(r =~= s.skip(s.len() - r.len()));
        assert forall|k: int| 0 <= k < r.len() implies #[trigger] r[k] != c by {
            if k < r0.len() {
                assert(r[k] == r0[k]);
            }
        }
    } else if s.len() > 0 {
        assert(after_last(s, c).len() == 0);
        assert(s.skip(s.len() as int) =~= Seq::<char>::empty());
    } else {
        assert(s.skip(0) =~= s);
    }
}

proof fn lemma_lead_ws_shape(s: Seq<char>)
    ensures
        lead_ws(s) <= s.len(),
        forall|k: int| 0 <= k < lead_ws(s) ==> is_ws(#[trigger] s[k]),
        lead_ws(s) < s.len() ==> !is_ws(s[lead_ws(s) as int]),
    decreases s.len(),
{
    if s.len() > 0 && is_ws(s[0]) {
        lemma_lead_ws_shape(s.drop_first());
        assert forall|k: int| 0 <= k < lead_ws(s) implies is_ws(#[trigger] s[k]) by {
            if k > 0 {
                assert(s[k] == s.drop_first()[k - 1]);
            }
        }
    }
}

proof fn lemma_trim_end_shape(s: Seq<char>) -> (m: int)
    ensures
        0 <= m <= s.len(),
        trim_end(s) == s.take(m),
        forall|k: int| m <= k < s.len() ==> is_ws(#[trigger] s[k]),
        m > 0 ==> !is_ws(s[m - 1]),
    decreases s.len(),
{
    if s.len() > 0 && is_ws(s.last()) {
        let m = lemma_trim_end_shape(s.drop_last());
        assert(s.drop_last().take(m) =~= s.take(m));
        assert forall|k: int| m <= k < s.len() implies is_ws(#[trigger] s[k]) by {
            if k < s.len() - 1 {
                assert(s[k] == s.drop_last()[k]);
            }
        }
        if m > 0 {
            assert(s[m - 1] == s.drop_last()[m - 1]);
        }
        m
    } else {
        assert(s.take(s.len() as int) =~= s);
        s.len() as int
    }
}

/// Trimming keeps the part of `s` between its first and last
/// non-whitespace characters: what it drops before and after is whitespace,
/// and what it keeps neither starts nor ends with whitespace.
pub proof fn lemma_trim_shape(s: Seq<char>)
    ensures
        exists|a: int, b: int|
            0 <= a <= b <= s.len() && trim(s) == s.subrange(a, b) && (forall|k: int|
                0 <= k < a ==> is_ws(#[trigger] s[k])) && (forall|k: int|
                b <= k < s.len() ==> is_ws(#[trigger] s[k])) && (a < b ==> !is_ws(s[a]) && !is_ws(
                s[b - 1],
            )),
{
    lemma_lead_ws_shape(s);
    let a = lead_ws(s) as int;
    let u = s.skip(a);
    let m = lemma_trim_end_shape(u);
    let b = a + m;
    assert(u.take(m) =~= s.subrange(a, b));
    assert forall|k: int| b <= k < s.len() implies is_ws(#[trigger] s[k]) by {
        assert(s[k] == u[k - a]);
    }
    if a < b {
        assert(s[a] == u[0]);
        assert(s[b - 1] == u[m - 1]);
    }
}

/// A line is blank exactly when all its characters are whitespace.
pub proof fn lemma_blank_iff_all_ws(s: Seq<char>)
    ensures
        is_blank(s) <==> forall|k: int| 0 <= k < s.len() ==> is_ws(#[trigger] s[k]),
{
    lemma_lead_ws_shape(s);
    let a = lead_ws(s) as int;
    let u = s.skip(a);
    let m = lemma_trim_end_shape(u);
    if is_blank(s) {
        assert(m == 0);
        assert forall|k: int| 0 <= k < s.len() implies is_ws(#[trigger] s[k]) by {
            if k >= a {
                assert(s[k] == u[k - a]);
            }
        }
    }
    if forall|k: int| 0 <= k < s.len() ==> is_ws(#[trigger] s[k]) {
        if a < s.len() {
            assert(is_ws(s[a]));
        }
        assert(u.len() == 0);
    }
}

/// The number that a string of decimal digits denotes.
pub open spec fn digits_value(d: Seq<char>) -> int
    decreases d.len(),
{
    if d.len() == 0 {
        0
    } else {
        digits_value(d.drop_last()) * 10 + (d.last() as int - 48)
    }
}

/// The decimal notation of `n` is a non-empty string of digits `0`..`9` that
/// denotes `n`, without a leading zero unless `n` is zero.
pub proof fn lemma_decimal_shape(n: nat)
    ensures
        decimal(n).len() >= 1,
        forall|k: int| 0 <= k < decimal(n).len() ==> '0' <= #[trigger] decimal(n)[k] <= '9',
        digits_value(decimal(n)) == n,
        n > 0 ==> decimal(n)[0] != '0',
    decreases n,
{
    if n < 10 {
        assert(digit_char(n) as int == 48 + n);
        assert(decimal(n).drop_last() =~= Seq::<char>::empty());
        assert(digits_value(decimal(n)) == digits_value(Seq::<char>::empty()) * 10 + (decimal(n).last() as int - 48));
    } else {
        lemma_decimal_shape(n / 10);
        let d = decimal(n / 10);
        assert(digit_char(n % 10) as int == 48 + n % 10);
        assert(decimal(n).drop_last() =~= d);
        assert forall|k: int| 0 <= k < decimal(n).len() implies '0' <= #[trigger] decimal(n)[k] <= '9' by {
            if k < d.len() {
                assert(decimal(n)[k] == d[k]);
            }
        }
        assert(decimal(n)[0] == d[0]);
        assert(decimal(n).last() == digit_char(n % 10));
        assert(n == (n / 10) * 10 + n % 10);
        assert(digits_value(decimal(n)) == digits_value(d) * 10 + (decimal(n).last() as int - 48));
    }
}

proof fn lemma_line_len_shape(s: Seq<char>)
    ensures
        line_len(s) <= s.len(),
        forall|k: int| 0 <= k < line_len(s) ==> #[trigger] s[k] != '\n',
        line_len(s) < s.len() ==> s[line_len(s) as int] == '\n',
    decreases s.len(),
{
    if s.len() > 0 && s[0] != '\n' {
        lemma_line_len_shape(s.drop_first());
        assert forall|k: int| 0 <= k < line_len(s) implies #[trigger] s[k] != '\n' by {
            if k > 0 {
                assert(s[k] == s.drop_first()[k - 1]);
            }
        }
    }
}

proof fn lemma_join_cons(x: Seq<char>, rest: Seq<Seq<char>>)
    ensures
        join_lines(seq![x] + rest) == (if rest.len() == 0 {
            x
        } else {
            x + seq!['\n'] + join_lines(rest)
        }),
    decreases rest.len(),
{
    let l = seq![x] + rest;
    if rest.len() == 0 {
        assert(l =~= seq![x]);
    } else {
        assert(l.drop_last() =~= seq![x] + rest.drop_last());
        assert(l.last() == rest.last());
        lemma_join_cons(x, rest.drop_last());
        if rest.len() == 1 {
            assert(rest.drop_last() =~= Seq::<Seq<char>>::empty());
            assert(join_lines(rest) == rest[0]);
        } else {
            assert(join_lines(rest) == join_lines(rest.drop_last()) + seq!['\n'] + rest.last());
        }
        assert(join_lines(l) =~= x + seq!['\n'] + join_lines(rest));
    }
}

/// The line ending that ends `s`, if any.
pub open spec fn final_newline(s: Seq<char>) -> Seq<char> {
    if s.len() > 0 && s.last() == '\n' {
        seq!['\n']
    } else {
        seq![]
    }
}

/// No line holds a line feed.
pub proof fn lemma_lines_hold_no_newline(s: Seq<char>)
    ensures
        forall|j: int, k: int|
            0 <= j < lines_of(s).len() && 0 <= k < lines_of(s)[j].len() ==> #[trigger] lines_of(s)[j][k]
                != '\n',
    decreases s.len(),
{
    if s.len() > 0 {
        lemma_line_len_shape(s);
        let n = line_len(s);
        if n < s.len() {
            let t = s.skip((n + 1) as int);
            lemma_lines_hold_no_newline(t);
            let first = strip_cr(s.take(n as int));
            let ls = lines_of(s);
            assert(ls == seq![first] + lines_of(t));
            assert forall|j: int, k: int| 0 <= j < ls.len() && 0 <= k < ls[j].len() implies #[trigger] ls[j][k]
                != '\n' by {
                if j == 0 {
                    assert(first[k] == s[k]);
                } else {
                    assert(ls[j] == lines_of(t)[j - 1]);
                }
            }
        }
    }
}

/// For a text without carriage returns, joining its lines with newlines and
/// adding back a final line ending, if the text had one, gives the text.
pub proof fn lemma_lines_rejoin(s: Seq<char>)
    requires
        forall|k: int| 0 <= k < s.len() ==> #[trigger] s[k] != '\r',
    ensures
        join_lines(lines_of(s)) + final_newline(s) == s,
    decreases s.len(),
{
    if s.len() == 0 {
        assert(join_lines(lines_of(s)) + final_newline(s) =~= s);
    } else {
        lemma_line_len_shape(s);
        let n = line_len(s);
        if n >= s.len() {
            assert(s.last() == s[s.len() - 1]);
            assert(join_lines(lines_of(s)) + final_newline(s) =~= s);
        } else {
            let t = s.skip((n + 1) as int);
            let first = s.take(n as int);
            if n > 0 {
                assert(first.last() == s[n - 1]);
            }
            assert(strip_cr(first) == first);
            let rest = lines_of(t);
            assert(lines_of(s) == seq![first] + rest);
            lemma_join_cons(first, rest);
            if t.len() == 0 {
                assert(rest.len() == 0);
                assert(s.last() == s[n as int]);
                assert(join_lines(lines_of(s)) + final_newline(s) =~= s);
            } else {
                assert(rest.len() > 0);
                assert forall|k: int| 0 <= k < t.len() implies #[trigger] t[k] != '\r' by {
                    assert(t[k] == s[k + n + 1]);
                }
                lemma_lines_rejoin(t);
                assert(t.last() == s.last());
                assert(final_newline(t) == final_newline(s));
                assert(join_lines(lines_of(s)) + final_newline(s) =~= first + seq!['\n'] + (join_lines(rest)
                    + final_newline(t)));
                assert(first + seq!['\n'] + t =~= s);
            }
        }
    }
}

/// The lines concatenated, without separators.
pub open spec fn flat(ls: Seq<Seq<char>>) -> Seq<char>
    decreases ls.len(),
{
    if ls.len() == 0 {
        seq![]
    } else {
        ls[0] + flat(ls.drop_first())
    }
}

/// Number of `{` minus number of `}` in `cs`.
pub open spec fn balance(cs: Seq<char>) -> int
    decreases cs.len(),
{
    if cs.len() == 0 {
        0
    } else {
        (if cs[0] == '{' {
            1int
        } else if cs[0] == '}' {
            -1int
        } else {
            0int
        }) + balance(cs.drop_first())
    }
}

/// `cs` holds a `{`.
pub open spec fn opens(cs: Seq<char>) -> bool
    decreases cs.len(),
{
    cs.len() > 0 && (cs[0] == '{' || opens(cs.drop_first()))
}

/// Position `p` of `cs` holds a `}` that, from a depth `d` and with a `{`
/// seen already when `f`, brings the depth back to zero after some `{`.
pub open spec fn closes_from(cs: Seq<char>, d: int, f: bool, p: int) -> bool {
    0 <= p < cs.len() && cs[p] == '}' && d + balance(cs.take(p + 1)) == 0 && (f || opens(cs.take(p)))
}

/// Position `p` of `cs` holds a `}` after which `cs` has held as many `}`
/// as `{`, and at least one `{`.
pub open spec fn closes_block(cs: Seq<char>, p: int) -> bool {
    0 <= p < cs.len() && cs[p] == '}' && balance(cs.take(p + 1)) == 0 && opens(cs.take(p))
}

proof fn lemma_closes_step(l: Seq<char>, d: int, f: bool, q: int)
    requires
        l.len() > 0,
        1 <= q,
    ensures
        closes_from(l, d, f, q) == closes_from(
            l.drop_first(),
            d + (if l[0] == '{' {
                1int
            } else if l[0] == '}' {
                -1int
            } else {
                0int
            }),
            f || l[0] == '{',
            q - 1,
        ),
{
    if q < l.len() {
        assert(l.take(q + 1).drop_first() =~= l.drop_first().take(q));
        assert(l.take(q + 1)[0] == l[0]);
        assert(l.take(q).drop_first() =~= l.drop_first().take(q - 1));
        assert(l.take(q)[0] == l[0]);
        assert(l[q] == l.drop_first()[q - 1]);
    }
}

proof fn lemma_scan_line_closes(l: Seq<char>, d: int, f: bool)
    requires
        !(scan_line(l, d, f) is Overflow),
    ensures
        scan_line(l, d, f) is Closed ==> exists|p: int|
            #[trigger] closes_from(l, d, f, p) && forall|q: int| 0 <= q < p ==> !#[trigger] closes_from(l, d, f, q),
        scan_line(l, d, f) matches Scan::Open { depth: d2, found: f2 } ==> d2 == d + balance(l) && f2 == (f
            || opens(l)) && forall|q: int| !#[trigger] closes_from(l, d, f, q),
    decreases l.len(),
{
    if l.len() > 0 {
        let c = l[0];
        let rest = l.drop_first();
        let dd = if c == '{' {
            1int
        } else if c == '}' {
            -1int
        } else {
            0int
        };
        let closed_here = c == '}' && d - 1 == 0 && f;
        let d1 = d + dd;
        let f1 = f || c == '{';
        assert(l.take(1).drop_first() =~= Seq::<char>::empty());
        assert(l.take(1)[0] == l[0]);
        assert(balance(l.take(1)) == dd + balance(Seq::<char>::empty()));
        assert(l.take(0) =~= Seq::<char>::empty());
        assert(closes_from(l, d, f, 0) == closed_here);
        if !closed_here {
            lemma_scan_line_closes(rest, d1, f1);
            assert forall|q: int| 1 <= q implies #[trigger] closes_from(l, d, f, q) == closes_from(
                rest,
                d + dd,
                f || c == '{',
                q - 1,
            ) by {
                lemma_closes_step(l, d, f, q);
            }
            if scan_line(l, d, f) is Closed {
                let p = choose|p: int|
                    #[trigger] closes_from(rest, d1, f1, p) && forall|q: int|
                        0 <= q < p ==> !#[trigger] closes_from(rest, d1, f1, q);
                assert(closes_from(l, d, f, p + 1));
                assert forall|q: int| 0 <= q < p + 1 implies !#[trigger] closes_from(l, d, f, q) by {
                    if q >= 1 {
                        assert(!closes_from(rest, d1, f1, q - 1));
                    }
                }
            } else {
                assert forall|q: int| !#[trigger] closes_from(l, d, f, q) by {
                    if q >= 1 {
                        assert(!closes_from(rest, d1, f1, q - 1));
                    }
                }
            }
        } else {
            assert(closes_from(l, d, f, 0));
        }
    } else {
        assert forall|q: int| !#[trigger] closes_from(l, d, f, q) by {}
    }
}

proof fn lemma_balance_concat(a: Seq<char>, b: Seq<char>)
    ensures
        balance(a + b) == balance(a) + balance(b),
        opens(a + b) == (opens(a) || opens(b)),
    decreases a.len(),
{
    if a.len() == 0 {
        assert(a + b =~= b);
    } else {
        lemma_balance_concat(a.drop_first(), b);
        assert((a + b).drop_first() =~= a.drop_first() + b);
        assert((a + b)[0] == a[0]);
    }
}

/// Positions within the first part of `a + b` close as they do in `a`; later
/// ones close as in `b`, from the depth and found flag that `a` leaves.
proof fn lemma_closes_concat(a: Seq<char>, b: Seq<char>, d: int, f: bool, q: int)
    ensures
        0 <= q < a.len() ==> closes_from(a + b, d, f, q) == closes_from(a, d, f, q),
        q >= a.len() ==> closes_from(a + b, d, f, q) == closes_from(b, d + balance(a), f || opens(a), q - a.len()),
{
    if 0 <= q < a.len() {
        assert((a + b).take(q + 1) =~= a.take(q + 1));
        assert((a + b).take(q) =~= a.take(q));
    } else if q >= a.len() {
        let r = q - a.len();
        if q < (a + b).len() {
            assert((a + b).take(q + 1) =~= a + b.take(r + 1));
            assert((a + b).take(q) =~= a + b.take(r));
            lemma_balance_concat(a, b.take(r + 1));
            lemma_balance_concat(a, b.take(r));
            assert((a + b)[q] == b[r]);
        }
    }
}

proof fn lemma_flat_skip(ls: Seq<Seq<char>>, i: int)
    requires
        0 <= i < ls.len(),
    ensures
        flat(ls.skip(i)) == ls[i] + flat(ls.skip(i + 1)),
{
    assert(ls.skip(i).drop_first() =~= ls.skip(i + 1));
    assert(ls.skip(i)[0] == ls[i]);
}

proof fn lemma_flat_split(ls: Seq<Seq<char>>, i: int, e: int)
    requires
        0 <= i <= e <= ls.len(),
    ensures
        flat(ls.subrange(i, e)) + flat(ls.skip(e)) == flat(ls.skip(i)),
    decreases e - i,
{
    if i == e {
        assert(ls.subrange(i, e) =~= Seq::<Seq<char>>::empty());
        assert(flat(ls.subrange(i, e)) + flat(ls.skip(e)) =~= flat(ls.skip(i)));
    } else {
        lemma_flat_split(ls, i + 1, e);
        lemma_flat_skip(ls, i);
        assert(ls.subrange(i, e).drop_first() =~= ls.subrange(i + 1, e));
        assert(ls.subrange(i, e)[0] == ls[i]);
        assert(flat(ls.subrange(i, e)) + flat(ls.skip(e)) =~= flat(ls.skip(i)));
    }
}

proof fn lemma_scan_lines_closes(ls: Seq<Seq<char>>, i: int, d: int, f: bool)
    requires
        0 <= i <= ls.len(),
        !(scan_lines(ls, i, d, f) is Overflow),
    ensures
        scan_lines(ls, i, d, f) matches BlockEnd::Closed(e) ==> i <= e < ls.len() && exists|p: int|
            #[trigger] closes_from(flat(ls.skip(i)), d, f, p) && (forall|q: int|
                0 <= q < p ==> !#[trigger] closes_from(flat(ls.skip(i)), d, f, q)) && flat(ls.subrange(i, e)).len()
                <= p < flat(ls.subrange(i, e + 1)).len(),
        scan_lines(ls, i, d, f) is Unclosed ==> forall|q: int| !#[trigger] closes_from(flat(ls.skip(i)), d, f, q),
    decreases ls.len() - i,
{
    if i == ls.len() {
        assert(ls.skip(i) =~= Seq::<Seq<char>>::empty());
        assert forall|q: int| !#[trigger] closes_from(flat(ls.skip(i)), d, f, q) by {}
    } else {
        let l = ls[i];
        let y = flat(ls.skip(i + 1));
        lemma_flat_skip(ls, i);
        lemma_scan_line_closes(l, d, f);
        assert forall|q: int| #[trigger] closes_from(l + y, d, f, q) == (if 0 <= q < l.len() {
            closes_from(l, d, f, q)
        } else if q >= l.len() {
            closes_from(y, d + balance(l), f || opens(l), q - l.len())
        } else {
            false
        }) by {
            lemma_closes_concat(l, y, d, f, q);
        }
        assert(ls.subrange(i, i) =~= Seq::<Seq<char>>::empty());
        assert(ls.subrange(i, i + 1) =~= seq![l]);
        assert(seq![l].drop_first() =~= Seq::<Seq<char>>::empty());
        assert(seq![l][0] == l);
        assert(flat(seq![l]) == l + flat(Seq::<Seq<char>>::empty()));
        assert(flat(seq![l]) =~= l);
        match scan_line(l, d, f) {
            Scan::Closed => {
                let p = choose|p: int|
                    #[trigger] closes_from(l, d, f, p) && forall|q: int| 0 <= q < p ==> !#[trigger] closes_from(l, d, f, q);
                assert(closes_from(l + y, d, f, p));
                assert forall|q: int| 0 <= q < p implies !#[trigger] closes_from(l + y, d, f, q) by {
                    assert(!closes_from(l, d, f, q));
                }
            },
            Scan::Open { depth: d2, found: f2 } => {
                lemma_scan_lines_closes(ls, i + 1, d2, f2);
                match scan_lines(ls, i + 1, d2, f2) {
                    BlockEnd::Closed(e) => {
                        let p = choose|p: int|
                            #[trigger] closes_from(y, d2, f2, p) && (forall|q: int|
                                0 <= q < p ==> !#[trigger] closes_from(y, d2, f2, q)) && flat(ls.subrange(i + 1, e)).len()
                                <= p < flat(ls.subrange(i + 1, e + 1)).len();
                        assert(closes_from(l + y, d, f, p + l.len()));
                        assert forall|q: int| 0 <= q < p + l.len() implies !#[trigger] closes_from(l + y, d, f, q) by {
                            if q >= l.len() {
                                assert(!closes_from(y, d2, f2, q - l.len()));
                            } else {
                                assert(!closes_from(l, d, f, q));
                            }
                        }
                        assert(ls.subrange(i, e).drop_first() =~= ls.subrange(i + 1, e));
                        assert(ls.subrange(i, e)[0] == l);
                        assert(ls.subrange(i, e + 1).drop_first() =~= ls.subrange(i + 1, e + 1));
                        assert(ls.subrange(i, e + 1)[0] == l);
                    },
                    _ => {
                        assert forall|q: int| !#[trigger] closes_from(l + y, d, f, q) by {
                            if q >= l.len() {
                                assert(!closes_from(y, d2, f2, q - l.len()));
                            } else if q >= 0 {
                                assert(!closes_from(l, d, f, q));
                            }
                        }
                    },
                }
            },
            Scan::Overflow => {},
        }
    }
}

/// A brace block ends on the line that holds the first `}` after which the
/// lines, read from the block's first line, have held as many `}` as `{` and
/// at least one `{`; when no `}` does, the block is not closed.
pub proof fn lemma_brace_end_shape(ls: Seq<Seq<char>>, start: int)
    requires
        0 <= start <= ls.len(),
        !(brace_end(ls, start) is Overflow),
    ensures
        brace_end(ls, start) matches BlockEnd::Closed(e) ==> start <= e < ls.len() && exists|p: int|
            #[trigger] closes_block(flat(ls.skip(start)), p) && (forall|q: int|
                0 <= q < p ==> !#[trigger] closes_block(flat(ls.skip(start)), q)) && flat(
                ls.subrange(start, e),
            ).len() <= p < flat(ls.subrange(start, e + 1)).len(),
        brace_end(ls, start) is Unclosed ==> forall|q: int| !#[trigger] closes_block(flat(ls.skip(start)), q),
{
    lemma_scan_lines_closes(ls, start, 0, false);
    let cs = flat(ls.skip(start));
    assert forall|q: int| #[trigger] closes_block(cs, q) == closes_from(cs, 0, false, q) by {
        if 0 <= q < cs.len() {
            assert(0 + balance(cs.take(q + 1)) == balance(cs.take(q + 1)));
        }
    }
    if let BlockEnd::Closed(e) = brace_end(ls, start) {
        let p = choose|p: int|
            #[trigger] closes_from(cs, 0, false, p) && (forall|q: int|
                0 <= q < p ==> !#[trigger] closes_from(cs, 0, false, q)) && flat(
                ls.subrange(start, e),
            ).len() <= p < flat(ls.subrange(start, e + 1)).len();
        assert(closes_block(cs, p));
        assert forall|q: int| 0 <= q < p implies !#[trigger] closes_block(cs, q) by {
            assert(!closes_from(cs, 0, false, q));
        }
    }
}

/// The brace block from line `start` of a text runs from that line to the
/// line of the first `}` that closes it, or to the last line when no `}`
/// closes it; its text is those lines joined with newlines.
pub proof fn lemma_brace_extent_shape(ls: Seq<Seq<char>>, start: int)
    requires
        0 <= start < ls.len(),
        !(brace_end(ls, start) is Overflow),
    ensures
        (exists|p: int| #[trigger] closes_block(flat(ls.skip(start)), p)) ==> ({
            let e = brace_extent(ls, start).1;
            &&& start <= e < ls.len()
            &&& exists|p: int|
                #[trigger] closes_block(flat(ls.skip(start)), p) && (forall|q: int|
                    0 <= q < p ==> !#[trigger] closes_block(flat(ls.skip(start)), q)) && flat(
                    ls.subrange(start, e),
                ).len() <= p < flat(ls.subrange(start, e + 1)).len()
            &&& brace_extent(ls, start).0 == join_lines(ls.subrange(start, e + 1))
        }),
        !(exists|p: int| #[trigger] closes_block(flat(ls.skip(start)), p)) ==> brace_extent(ls, start) == (
            join_lines(ls.subrange(start, ls.len() as int)),
            ls.len() - 1,
        ),
{
    lemma_brace_end_shape(ls, start);
}

} // verus!

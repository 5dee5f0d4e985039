//! Names and block extents: the word after a keyword, the lines up to the
//! brace that closes a block, and the lines indented under a header.

use vstd::prelude::*;

use crate::decompose::CodeDecomposer;
use crate::text::{
    chars_of, find_chars, first_match, first_match_from, matches_at, is_blank, is_whitespace, is_ws, join_lines, join_range, string_of,
    sub_vec, trim_chars, views,
};

verus! {

/// Characters at which a run of characters stops.
#[derive(Clone, Copy)]
pub enum Stop {
    /// Whitespace, `(`, `<`, `{` or `:`: the end of a declared name.
    NameDelim,
    /// An opening parenthesis.
    OpenParen,
    /// Whitespace or `(`: the end of a block's first word.
    WordEnd,
    /// Anything but a space or a tab: the end of an indentation.
    NotIndent,
}

/// Whether `c` stops a run of kind `stop`.
pub open spec fn stops(stop: Stop, c: char) -> bool {
    match stop {
        Stop::NameDelim => is_ws(c) || c == '(' || c == '<' || c == '{' || c == ':',
        Stop::OpenParen => c == '(',
        Stop::WordEnd => is_ws(c) || c == '(',
        Stop::NotIndent => !(c == ' ' || c == '\t'),
    }
}

/// Number of characters at the start of `s` before the first that stops.
pub open spec fn run_len(s: Seq<char>, stop: Stop) -> nat
    decreases s.len(),
{
    if s.len() == 0 || stops(stop, s[0]) {
        0
    } else {
        1 + run_len(s.drop_first(), stop)
    }
}

/// The first piece of `s` when it is split at the characters that stop
/// (`str::split(..).next()`).
pub open spec fn first_piece(s: Seq<char>, stop: Stop) -> Seq<char> {
    s.take(run_len(s, stop) as int)
}

/// Leading spaces and tabs of a line.
pub open spec fn indent_of(l: Seq<char>) -> nat {
    run_len(l, Stop::NotIndent)
}

/// What follows the last `c` in `s`, or all of `s` when there is none
/// (`str::rsplit(c).next()`, and `str::split(c).last()`).
pub open spec fn after_last(s: Seq<char>, c: char) -> Seq<char>
    decreases s.len(),
{
    if s.len() == 0 {
        s
    } else if s.last() == c {
        Seq::empty()
    } else {
        after_last(s.drop_last(), c).push(s.last())
    }
}

/// The name that follows the first occurrence of `keyword` in `line`: the
/// characters after it up to whitespace, `(`, `<`, `{` or `:`; `"unknown"`
/// when `keyword` does not occur.
pub open spec fn name_after_spec(line: Seq<char>, keyword: Seq<char>) -> Seq<char> {
    match first_match(line, keyword) {
        Some(i) => first_piece(line.skip(i + keyword.len()), Stop::NameDelim),
        None => "unknown"@,
    }
}

/// State of the brace scan after a line.
pub enum Scan {
    /// The brace that brings the depth back to zero was met.
    Closed,
    /// The line ended with this depth; `found` once any `{` was seen.
    Open { depth: int, found: bool },
    /// The depth left the range of `i32`.
    Overflow,
}

/// Scans one line for braces from the given depth.
pub open spec fn scan_line(l: Seq<char>, depth: int, found: bool) -> Scan
    decreases l.len(),
{
    if l.len() == 0 {
        Scan::Open { depth, found }
    } else if l[0] == '{' {
        if depth + 1 > i32::MAX {
            Scan::Overflow
        } else {
            scan_line(l.drop_first(), depth + 1, true)
        }
    } else if l[0] == '}' {
        if depth - 1 < i32::MIN {
            Scan::Overflow
        } else if depth - 1 == 0 && found {
            Scan::Closed
        } else {
            scan_line(l.drop_first(), depth - 1, found)
        }
    } else {
        scan_line(l.drop_first(), depth, found)
    }
}

/// Where a brace scan over lines ends.
pub enum BlockEnd {
    /// The block closes on this line.
    Closed(int),
    /// No line closes the block.
    Unclosed,
    /// The depth left the range of `i32` first.
    Overflow,
}

/// Scans lines `i..` for braces, starting at the given depth.
pub open spec fn scan_lines(ls: Seq<Seq<char>>, i: int, depth: int, found: bool) -> BlockEnd
    decreases ls.len() - i,
{
    if i < 0 || i >= ls.len() {
        BlockEnd::Unclosed
    } else {
        match scan_line(ls[i], depth, found) {
            Scan::Closed => BlockEnd::Closed(i),
            Scan::Overflow => BlockEnd::Overflow,
            Scan::Open { depth: d, found: f } => scan_lines(ls, i + 1, d, f),
        }
    }
}

/// Where the block that starts on line `start` closes.
pub open spec fn brace_end(ls: Seq<Seq<char>>, start: int) -> BlockEnd {
    scan_lines(ls, start, 0, false)
}

/// The text and last line of the brace block from line `start`: up to the
/// line whose `}` brings the depth back to zero after some `{`, or to the
/// last line when none does.
pub open spec fn brace_extent(ls: Seq<Seq<char>>, start: int) -> (Seq<char>, int) {
    match brace_end(ls, start) {
        BlockEnd::Closed(e) => (join_lines(ls.subrange(start, e + 1)), e),
        _ => (join_lines(ls.subrange(start, ls.len() as int)), if ls.len() == 0 { 0 } else { ls.len() - 1 }),
    }
}

/// The last line of the indented block that lines `i..` continue: blank
/// lines join it, and it ends before the first non-blank line indented no
/// deeper than `base`.
pub open spec fn indent_scan(ls: Seq<Seq<char>>, i: int, base: nat, end: int) -> int
    decreases ls.len() - i,
{
    if i < 0 || i >= ls.len() {
        end
    } else if is_blank(ls[i]) {
        indent_scan(ls, i + 1, base, i)
    } else if indent_of(ls[i]) <= base {
        end
    } else {
        indent_scan(ls, i + 1, base, i)
    }
}

/// The text and last line of the indented block whose header is line `start`.
pub open spec fn indent_extent(ls: Seq<Seq<char>>, start: int) -> (Seq<char>, int) {
    let end = indent_scan(ls, start + 1, indent_of(ls[start]), start);
    (join_lines(ls.subrange(start, end + 1)), end)
}

/// The lines of a slice of strings as character sequences.
pub open spec fn str_views(v: Seq<&str>) -> Seq<Seq<char>> {
    v.map_values(|s: &str| s@)
}

/// Whether `c` stops a run of kind `stop`.
pub fn stops_at(stop: Stop, c: char) -> (r: bool)
    ensures
        r == stops(stop, c),
{
    match stop {
        Stop::NameDelim => is_whitespace(c) || c == '(' || c == '<' || c == '{' || c == ':',
        Stop::OpenParen => c == '(',
        Stop::WordEnd => is_whitespace(c) || c == '(',
        Stop::NotIndent => !(c == ' ' || c == '\t'),
    }
}

/// Position where the run of `s` from position `from` ends: the first
/// character at or after `from` that stops, or the end of `s`.
pub fn run_end(s: &[char], from: usize, stop: Stop) -> (r: usize)
    requires
        from <= s@.len(),
    ensures
        from <= r <= s@.len(),
        r - from == run_len(s@.skip(from as int), stop),
{
    let n = s.len();
    let mut j = from;
    while j < n && !stops_at(stop, s[j])
        invariant
            from <= j <= n == s@.len(),
            run_len(s@.skip(from as int), stop) == (j - from) + run_len(s@.skip(j as int), stop),
        decreases n - j,
    {
        assert(s@.skip(j as int).drop_first() =~= s@.skip(j + 1));
        j += 1;
    }
    if j < n {
        assert(s@.skip(j as int)[0] == s@[j as int]);
    }
    j
}

/// The run of `s` from position `from` before the first character that stops.
pub fn first_piece_of(s: &[char], from: usize, stop: Stop) -> (r: Vec<char>)
    requires
        from <= s@.len(),
    ensures
        r@ == first_piece(s@.skip(from as int), stop),
{
    let k = run_end(s, from, stop);
    let r = sub_vec(s, from, k);
    assert(r@ =~= s@.skip(from as int).take(k - from));
    r
}

/// What follows the last `c` in `s`, or all of `s`.
pub fn after_last_char(s: &[char], c: char) -> (r: Vec<char>)
    ensures
        r@ == after_last(s@, c),
{
    let n = s.len();
    let mut k = n;
    assert(s@.take(n as int) =~= s@);
    assert(s@.subrange(n as int, n as int) =~= Seq::<char>::empty());
    assert(after_last(s@, c) =~= after_last(s@.take(n as int), c) + s@.subrange(n as int, n as int));
    while k > 0 && s[k - 1] != c
        invariant
            k <= n == s@.len(),
            after_last(s@, c) == after_last(s@.take(k as int), c) + s@.subrange(k as int, n as int),
        decreases k,
    {
        proof {
            let t = s@.take(k as int);
            assert(t.drop_last() =~= s@.take(k - 1));
            assert(after_last(s@.take(k - 1), c) + s@.subrange(k - 1, n as int) =~= after_last(
                s@.take(k - 1),
                c,
            ).push(t.last()) + s@.subrange(k as int, n as int));
        }
        k -= 1;
    }
    proof {
        assert(s@.take(n as int) =~= s@);
        assert(s@.subrange(n as int, n as int) =~= Seq::<char>::empty());
        if k > 0 {
            assert(s@.take(k as int).last() == s@[k - 1]);
        }
        assert(after_last(s@.take(k as int), c) =~= Seq::<char>::empty());
        assert(after_last(s@, c) =~= s@.subrange(k as int, n as int));
    }
    sub_vec(s, k, n)
}

/// The name after `keyword` in `line`, as characters.
pub fn name_after_chars(line: &[char], keyword: &str) -> (r: Vec<char>)
    ensures
        r@ == name_after_spec(line@, keyword@),
{
    let kw = chars_of(keyword);
    let n = line.len();
    let found = find_chars(line, kw.as_slice());
    proof {
        if found is Some {
            lemma_first_match_matches(line@, kw@, 0);
        }
    }
    match found {
        Some(i) => {
            assert(i + kw@.len() <= n);
            let r = first_piece_of(line, i + kw.len(), Stop::NameDelim);
            assert(line@.skip(i + kw@.len()) == line@.skip((i + kw.len()) as int));
            r
        },
        None => chars_of("unknown"),
    }
}

/// A position that `first_match_from` returns is one where `p` occurs.
pub proof fn lemma_first_match_matches(s: Seq<char>, p: Seq<char>, i: int)
    ensures
        first_match_from(s, p, i) matches Some(k) ==> matches_at(s, p, k) && i <= k,
    decreases s.len() - i,
{
    if !(i < 0 || i + p.len() > s.len()) && !matches_at(s, p, i) && i < s.len() {
        lemma_first_match_matches(s, p, i + 1);
    }
}

proof fn lemma_scan_line_step(l: Seq<char>, j: int)
    requires
        0 <= j < l.len(),
    ensures
        l.skip(j).drop_first() == l.skip(j + 1),
        l.skip(j)[0] == l[j],
{
    assert(l.skip(j).drop_first() =~= l.skip(j + 1));
}

/// The brace block from line `start`: its text and its last line.
pub fn brace_block_lines(lines: &[Vec<char>], start: usize) -> (r: (String, usize))
    requires
        start <= lines@.len(),
        !(brace_end(views(lines@), start as int) is Overflow),
    ensures
        (r.0@, r.1 as int) == brace_extent(views(lines@), start as int),
        start < lines@.len() ==> start <= r.1 < lines@.len(),
{
    let ghost ls = views(lines@);
    let n = lines.len();
    let mut depth: i32 = 0;
    let mut found = false;
    let mut i = start;
    while i < n
        invariant
            start <= i <= n == lines@.len(),
            ls == views(lines@),
            brace_end(ls, start as int) == scan_lines(ls, i as int, depth as int, found),
            !(brace_end(ls, start as int) is Overflow),
        decreases n - i,
    {
        let line = lines[i].as_slice();
        let m = line.len();
        let ghost l = ls[i as int];
        let ghost d0 = depth as int;
        let ghost f0 = found;
        assert(line@ == l);
        assert(l.skip(0) =~= l);
        let mut j: usize = 0;
        while j < m
            invariant
                j <= m == l.len(),
                line@ == l,
                start <= i < n == lines@.len(),
                ls == views(lines@),
                l == ls[i as int],
                brace_end(ls, start as int) == scan_lines(ls, i as int, d0, f0),
                !(brace_end(ls, start as int) is Overflow),
                scan_line(l, d0, f0) == scan_line(l.skip(j as int), depth as int, found),
            decreases m - j,
        {
            proof {
                lemma_scan_line_step(l, j as int);
            }
            let ch = line[j];
            if ch == '{' {
                depth += 1;
                found = true;
            } else if ch == '}' {
                depth -= 1;
                if depth == 0 && found {
                    let body = join_range(lines, start, i + 1);
                    return (body, i);
                }
            }
            j += 1;
        }
        assert(l.skip(m as int).len() == 0);
        i += 1;
    }
    let body = join_range(lines, start, n);
    let last = if n == 0 { 0 } else { n - 1 };
    (body, last)
}

/// Position after the leading spaces and tabs of `s`.
fn indent_length(s: &[char]) -> (r: usize)
    ensures
        r == indent_of(s@),
{
    let r = run_end(s, 0, Stop::NotIndent);
    assert(s@.skip(0) =~= s@);
    r
}

/// The indented block whose header is line `start`: its text and last line.
pub fn indent_block_lines(lines: &[Vec<char>], start: usize) -> (r: (String, usize))
    requires
        start < lines@.len(),
    ensures
        (r.0@, r.1 as int) == indent_extent(views(lines@), start as int),
        start <= r.1 < lines@.len(),
{
    let ghost ls = views(lines@);
    let n = lines.len();
    let base = indent_length(lines[start].as_slice());
    let mut end = start;
    let mut i = start + 1;
    while i < n
        invariant
            start < i <= n == lines@.len(),
            start <= end < i,
            ls == views(lines@),
            base == indent_of(ls[start as int]),
            indent_scan(ls, start + 1, base as nat, start as int) == indent_scan(
                ls,
                i as int,
                base as nat,
                end as int,
            ),
        ensures
            start <= end < n,
            indent_scan(ls, start + 1, base as nat, start as int) == end as int,
        decreases n - i,
    {
        let line = lines[i].as_slice();
        assert(line@ == ls[i as int]);
        let t = trim_chars(line);
        if t.len() == 0 {
            end = i;
            i += 1;
            continue;
        }
        let indent = indent_length(line);
        if indent <= base {
            break;
        }
        end = i;
        i += 1;
    }
    let body = join_range(lines, start, end + 1);
    (body, end)
}

/// Each string of `lines` as characters.
pub fn lines_as_chars(lines: &[&str]) -> (r: Vec<Vec<char>>)
    ensures
        views(r@) == str_views(lines@),
{
    let n = lines.len();
    let mut r: Vec<Vec<char>> = Vec::new();
    for i in 0..n
        invariant
            n == lines@.len(),
            views(r@) == str_views(lines@).take(i as int),
    {
        let ghost before = r@;
        let v = chars_of(lines[i]);
        r.push(v);
        assert(views(r@) =~= views(before).push(lines@[i as int]@));
        assert(str_views(lines@).take(i + 1) =~= str_views(lines@).take(i as int).push(
            lines@[i as int]@,
        ));
    }
    assert(str_views(lines@).take(n as int) =~= str_views(lines@));
    r
}

impl CodeDecomposer {
    /// The name that follows the first `keyword` in `line`, up to whitespace,
    /// `(`, `<`, `{` or `:`; `"unknown"` when `keyword` does not occur.
    pub fn name_after(line: &str, keyword: &str) -> (r: String)
        ensures
            r@ == name_after_spec(line@, keyword@),
    {
        let l = chars_of(line);
        let name = name_after_chars(l.as_slice(), keyword);
        string_of(name.as_slice())
    }

    /// The brace block that starts on line `start`: the lines from `start`
    /// to the one whose `}` closes the first `{`, joined with newlines, and
    /// the index of that line; all remaining lines and the last index when
    /// no brace closes it.
    pub fn brace_block(lines: &[&str], start: usize) -> (r: (String, usize))
        requires
            start <= lines@.len(),
            !(brace_end(str_views(lines@), start as int) is Overflow),
        ensures
            (r.0@, r.1 as int) == brace_extent(str_views(lines@), start as int),
    {
        let ls = lines_as_chars(lines);
        brace_block_lines(ls.as_slice(), start)
    }

    /// The indented block whose header is line `start`: the header and the
    /// lines indented deeper than it (blank lines included), joined with
    /// newlines, and the index of the last of them.
    pub fn indent_block(lines: &[&str], start: usize) -> (r: (String, usize))
        requires
            start < lines@.len(),
        ensures
            (r.0@, r.1 as int) == indent_extent(str_views(lines@), start as int),
    {
        let ls = lines_as_chars(lines);
        assert(views(ls@).len() == ls@.len());
        indent_block_lines(ls.as_slice(), start)
    }
}

} // verus!

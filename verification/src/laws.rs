//! Properties of the library as a whole, proved over the models that the
//! functions' contracts speak of.

use vstd::prelude::*;

use crate::blocks::{
    after_last, brace_end, brace_extent, indent_extent, indent_of, indent_scan, scan_line, scan_lines, BlockEnd,
    Scan,
};
use crate::model::{
    braced, braced_nonempty, c_tile, go_tile, indented, java_tile, one_line, python_tile,
    rust_tile, ts_tile, braces_fit, reads_braces, decomposition, detected_language, extension_language, generic_tiles, line_tile, line_tiles,
};
use crate::stats::{
    count_for, count_kind, counts_by_kind, kind_label, lemma_kind_labels_distinct, of_kind,
    summarises, total_span,
};
use crate::text::{is_blank, join_lines, line_len, lines_of, strip_cr, trim};
use crate::tile::{CodeKind, CodeStats, CodeTile, Language, TileModel};

verus! {

/// A tile read from the lines `ls` by a decomposer for `lang` carries that
/// language, covers lines `start_line..=end_line` of the text (1-based), and
/// its body is those lines joined with newlines; imports and comments cover
/// one line, and their body is that line trimmed.
pub open spec fn placed(t: TileModel, ls: Seq<Seq<char>>, lang: Language) -> bool {
    &&& t.language == lang
    &&& 1 <= t.start_line <= t.end_line <= ls.len()
    &&& if t.kind == CodeKind::Import || t.kind == CodeKind::Comment {
        t.end_line == t.start_line && t.body == trim(ls[t.start_line - 1])
    } else {
        t.body == join_lines(ls.subrange(t.start_line - 1, t.end_line))
    }
}

/// Tiles come in the order of the lines they start on, at most one per line.
pub open spec fn in_line_order(ts: Seq<TileModel>) -> bool {
    forall|j: int, k: int| 0 <= j < k < ts.len() ==> #[trigger] ts[j].start_line < #[trigger] ts[k].start_line
}

proof fn lemma_scan_lines_closed(ls: Seq<Seq<char>>, i: int, depth: int, found: bool)
    requires
        0 <= i,
    ensures
        scan_lines(ls, i, depth, found) matches BlockEnd::Closed(e) ==> i <= e < ls.len(),
    decreases ls.len() - i,
{
    if i < ls.len() {
        match scan_line(ls[i], depth, found) {
            Scan::Open { depth: d, found: f } => lemma_scan_lines_closed(ls, i + 1, d, f),
            _ => {},
        }
    }
}

/// A brace block from line `i` ends on a line at or after `i`.
pub(crate) proof fn lemma_brace_extent_range(ls: Seq<Seq<char>>, i: int)
    requires
        0 <= i < ls.len(),
    ensures
        i <= brace_extent(ls, i).1 < ls.len(),
{
    lemma_scan_lines_closed(ls, i, 0, false);
}

proof fn lemma_indent_scan_range(ls: Seq<Seq<char>>, i: int, base: nat, end: int)
    requires
        0 <= end < i,
        end < ls.len(),
    ensures
        end <= indent_scan(ls, i, base, end) < ls.len(),
    decreases ls.len() - i,
{
    if 0 <= i < ls.len() {
        lemma_indent_scan_range(ls, i + 1, base, i);
    }
}

/// An indented block from line `i` ends on a line at or after `i`.
proof fn lemma_indent_extent_range(ls: Seq<Seq<char>>, i: int)
    requires
        0 <= i < ls.len(),
    ensures
        i <= indent_extent(ls, i).1 < ls.len(),
{
    lemma_indent_scan_range(ls, i + 1, indent_of(ls[i]), i);
}

/// The shapes of tile that the line readers build from line `i` are placed.
proof fn lemma_shapes_placed(ls: Seq<Seq<char>>, i: int, lang: Language)
    requires
        0 <= i < ls.len(),
    ensures
        forall|kind: CodeKind, name: Seq<char>|
            kind != CodeKind::Import && kind != CodeKind::Comment ==> placed(
                #[trigger] braced(kind, name, ls, i, lang),
                ls,
                lang,
            ) && braced(kind, name, ls, i, lang).start_line == i + 1,
        forall|kind: CodeKind, name: Seq<char>|
            kind != CodeKind::Import && kind != CodeKind::Comment ==> (#[trigger] braced_nonempty(
                kind,
                name,
                ls,
                i,
                lang,
            ) matches Some(t) ==> placed(t, ls, lang) && t.start_line == i + 1),
        forall|kind: CodeKind, name: Seq<char>|
            kind != CodeKind::Import && kind != CodeKind::Comment ==> placed(
                #[trigger] indented(kind, name, ls, i, lang),
                ls,
                lang,
            ) && indented(kind, name, ls, i, lang).start_line == i + 1,
        forall|kind: CodeKind, name: Seq<char>|
            kind == CodeKind::Import || kind == CodeKind::Comment ==> placed(
                #[trigger] one_line(kind, name, trim(ls[i]), i, lang),
                ls,
                lang,
            )
                && one_line(kind, name, trim(ls[i]), i, lang).start_line == i + 1,
{
    lemma_brace_extent_range(ls, i);
    lemma_indent_extent_range(ls, i);
    assert(ls.subrange(i, i + 1) =~= seq![ls[i]]);
}

pub(crate) proof fn lemma_line_tile_placed(d: Language, ls: Seq<Seq<char>>, i: int, lang: Language)
    requires
        0 <= i < ls.len(),
    ensures
        line_tile(d, ls, i, lang) matches Some(t) ==> placed(t, ls, lang) && t.start_line == i + 1,
{
    lemma_shapes_placed(ls, i, lang);
    match d {
        Language::Rust => lemma_rust_placed(ls, i, lang),
        Language::Python => lemma_python_placed(ls, i, lang),
        Language::TypeScript | Language::JavaScript => lemma_ts_placed(ls, i, lang),
        Language::Go => lemma_go_placed(ls, i, lang),
        Language::C => lemma_c_placed(ls, i, lang),
        Language::Java => lemma_java_placed(ls, i, lang),
        Language::Unknown => {},
    }
}

proof fn lemma_rust_placed(ls: Seq<Seq<char>>, i: int, lang: Language)
    requires
        0 <= i < ls.len(),
    ensures
        rust_tile(ls, i, lang) matches Some(t) ==> placed(t, ls, lang) && t.start_line == i + 1,
{
    lemma_shapes_placed(ls, i, lang);
}

proof fn lemma_python_placed(ls: Seq<Seq<char>>, i: int, lang: Language)
    requires
        0 <= i < ls.len(),
    ensures
        python_tile(ls, i, lang) matches Some(t) ==> placed(t, ls, lang) && t.start_line == i + 1,
{
    lemma_shapes_placed(ls, i, lang);
}

proof fn lemma_ts_placed(ls: Seq<Seq<char>>, i: int, lang: Language)
    requires
        0 <= i < ls.len(),
    ensures
        ts_tile(ls, i, lang) matches Some(t) ==> placed(t, ls, lang) && t.start_line == i + 1,
{
    lemma_shapes_placed(ls, i, lang);
}

proof fn lemma_go_placed(ls: Seq<Seq<char>>, i: int, lang: Language)
    requires
        0 <= i < ls.len(),
    ensures
        go_tile(ls, i, lang) matches Some(t) ==> placed(t, ls, lang) && t.start_line == i + 1,
{
    lemma_shapes_placed(ls, i, lang);
}

proof fn lemma_c_placed(ls: Seq<Seq<char>>, i: int, lang: Language)
    requires
        0 <= i < ls.len(),
    ensures
        c_tile(ls, i, lang) matches Some(t) ==> placed(t, ls, lang) && t.start_line == i + 1,
{
    lemma_shapes_placed(ls, i, lang);
}

proof fn lemma_java_placed(ls: Seq<Seq<char>>, i: int, lang: Language)
    requires
        0 <= i < ls.len(),
    ensures
        java_tile(ls, i, lang) matches Some(t) ==> placed(t, ls, lang) && t.start_line == i + 1,
{
    lemma_shapes_placed(ls, i, lang);
}

proof fn lemma_line_tiles_placed(d: Language, ls: Seq<Seq<char>>, n: int, lang: Language)
    requires
        0 <= n <= ls.len(),
    ensures
        forall|j: int| 0 <= j < line_tiles(d, ls, n, lang).len() ==> placed(#[trigger] line_tiles(d, ls, n, lang)[j], ls, lang)
            && line_tiles(d, ls, n, lang)[j].start_line <= n,
        in_line_order(line_tiles(d, ls, n, lang)),
    decreases n,
{
    if n > 0 {
        lemma_line_tiles_placed(d, ls, n - 1, lang);
        lemma_line_tile_placed(d, ls, n - 1, lang);
    }
}

proof fn lemma_generic_placed(ls: Seq<Seq<char>>, i: int, start: int, open: bool, lang: Language)
    requires
        0 <= i <= ls.len(),
        open ==> 0 <= start < i,
    ensures
        forall|j: int| 0 <= j < generic_tiles(ls, i, start, open, lang).len() ==> placed(
            #[trigger] generic_tiles(ls, i, start, open, lang)[j],
            ls,
            lang,
        ) && generic_tiles(ls, i, start, open, lang)[j].start_line >= (if open { start + 1 } else { i + 1 }),
        in_line_order(generic_tiles(ls, i, start, open, lang)),
    decreases ls.len() - i,
{
    if i < ls.len() {
        lemma_generic_placed(ls, i + 1, start, false, lang);
        lemma_generic_placed(ls, i + 1, i, true, lang);
        if open {
            lemma_generic_placed(ls, i + 1, start, true, lang);
        }
    }
}

/// Every tile that a decomposer for `lang` reads from a text with lines `ls`
/// carries `lang`, covers lines of the text (`1 <= start_line <= end_line <=`
/// the number of lines), and holds the text of those lines (an import or a
/// comment holds its one line, trimmed); and the tiles come in the order of
/// their first lines, no two starting on the same line.
pub proof fn lemma_tiles_placed(lang: Language, ls: Seq<Seq<char>>)
    ensures
        forall|j: int|
            0 <= j < decomposition(lang, ls).len() ==> placed(#[trigger] decomposition(lang, ls)[j], ls, lang),
        in_line_order(decomposition(lang, ls)),
{
    match lang {
        Language::Unknown => lemma_generic_placed(ls, 0, 0, false, lang),
        Language::TypeScript | Language::JavaScript => lemma_line_tiles_placed(
            Language::TypeScript,
            ls,
            ls.len() as int,
            lang,
        ),
        _ => lemma_line_tiles_placed(lang, ls, ls.len() as int, lang),
    }
}

proof fn lemma_line_tiles_count(d: Language, ls: Seq<Seq<char>>, n: int, lang: Language)
    requires
        0 <= n,
    ensures
        line_tiles(d, ls, n, lang).len() <= n,
    decreases n,
{
    if n > 0 {
        lemma_line_tiles_count(d, ls, n - 1, lang);
    }
}

proof fn lemma_generic_count(ls: Seq<Seq<char>>, i: int, start: int, open: bool, lang: Language)
    requires
        0 <= i <= ls.len(),
    ensures
        generic_tiles(ls, i, start, open, lang).len() <= ls.len() - i + (if open { 1int } else { 0 }),
    decreases ls.len() - i,
{
    if i < ls.len() {
        lemma_generic_count(ls, i + 1, start, false, lang);
        lemma_generic_count(ls, i + 1, i, true, lang);
        lemma_generic_count(ls, i + 1, start, true, lang);
    }
}

/// A text yields no more tiles than it has lines.
pub proof fn lemma_at_most_one_tile_per_line(lang: Language, ls: Seq<Seq<char>>)
    ensures
        decomposition(lang, ls).len() <= ls.len(),
{
    match lang {
        Language::Unknown => lemma_generic_count(ls, 0, 0, false, lang),
        Language::TypeScript | Language::JavaScript => lemma_line_tiles_count(
            Language::TypeScript,
            ls,
            ls.len() as int,
            lang,
        ),
        _ => lemma_line_tiles_count(lang, ls, ls.len() as int, lang),
    }
}

proof fn lemma_generic_nonempty(ls: Seq<Seq<char>>, i: int, start: int, open: bool, j: int, lang: Language)
    requires
        0 <= i <= ls.len(),
        open || (i <= j < ls.len() && !is_blank(ls[j])),
    ensures
        generic_tiles(ls, i, start, open, lang).len() > 0,
    decreases ls.len() - i,
{
    if i < ls.len() {
        if is_blank(ls[i]) {
            if !open {
                lemma_generic_nonempty(ls, i + 1, start, false, j, lang);
            }
        } else if open {
            lemma_generic_nonempty(ls, i + 1, start, true, j, lang);
        } else {
            lemma_generic_nonempty(ls, i + 1, i, true, j, lang);
        }
    }
}

/// Text of unknown language with a non-blank line yields at least one block.
pub proof fn lemma_nonblank_text_has_blocks(ls: Seq<Seq<char>>, j: int)
    requires
        0 <= j < ls.len(),
        !is_blank(ls[j]),
    ensures
        decomposition(Language::Unknown, ls).len() > 0,
{
    lemma_generic_nonempty(ls, 0, 0, false, j, Language::Unknown);
}

/// A map that counts tiles by kind holds, under each kind's name, the number
/// of tiles of that kind (0 when there is none), and 0 under every other text.
pub proof fn lemma_count_for_kinds(m: Map<String, usize>, ts: Seq<CodeTile>)
    requires
        counts_by_kind(m, ts),
    ensures
        forall|k: CodeKind| #[trigger] count_for(m, kind_label(k)) == count_kind(ts, k),
        forall|s: Seq<char>| (forall|k: CodeKind| #[trigger] kind_label(k) != s) ==> #[trigger] count_for(m, s) == 0,
{
    assert forall|k: CodeKind| #[trigger] count_for(m, kind_label(k)) == count_kind(ts, k) by {
        let s = kind_label(k);
        if exists|key: String| #[trigger] m.contains_key(key) && key@ == s {
            let c = choose|key: String| #[trigger] m.contains_key(key) && key@ == s;
            let w = choose|w: CodeKind|
                c@ == #[trigger] kind_label(w) && count_kind(ts, w) > 0 && m[c] == count_kind(ts, w);
            lemma_kind_labels_distinct(w, k);
        } else {
            if count_kind(ts, k) > 0 {
                let key = choose|key: String| #[trigger] m.contains_key(key) && key@ == kind_label(k);
                assert(m.contains_key(key) && key@ == s);
            }
        }
    }
    assert forall|s: Seq<char>| (forall|k: CodeKind| #[trigger] kind_label(k) != s) implies #[trigger] count_for(m, s) == 0 by {
        if exists|key: String| #[trigger] m.contains_key(key) && key@ == s {
            let c = choose|key: String| #[trigger] m.contains_key(key) && key@ == s;
            let w = choose|w: CodeKind|
                c@ == #[trigger] kind_label(w) && count_kind(ts, w) > 0 && m[c] == count_kind(ts, w);
            assert(kind_label(w) != s);
        }
    }
}

/// The counts in a map that counts tiles by kind add up to the number of
/// tiles.
pub proof fn lemma_count_map_total(m: Map<String, usize>, ts: Seq<CodeTile>)
    requires
        counts_by_kind(m, ts),
    ensures
        count_for(m, kind_label(CodeKind::Function)) + count_for(m, kind_label(CodeKind::Struct))
            + count_for(m, kind_label(CodeKind::Enum)) + count_for(m, kind_label(CodeKind::Impl))
            + count_for(m, kind_label(CodeKind::Trait)) + count_for(m, kind_label(CodeKind::Class))
            + count_for(m, kind_label(CodeKind::Method)) + count_for(m, kind_label(CodeKind::Import))
            + count_for(m, kind_label(CodeKind::Comment)) + count_for(m, kind_label(CodeKind::Module))
            + count_for(m, kind_label(CodeKind::Block)) + count_for(m, kind_label(CodeKind::Test))
            == ts.len(),
{
    lemma_count_for_kinds(m, ts);
    lemma_kind_counts_sum(ts);
}

proof fn lemma_concat_counts(a: Seq<CodeTile>, b: Seq<CodeTile>, k: CodeKind)
    ensures
        count_kind(a + b, k) == count_kind(a, k) + count_kind(b, k),
        total_span(a + b) == total_span(a) + total_span(b),
    decreases b.len(),
{
    if b.len() == 0 {
        assert(a + b =~= a);
    } else {
        lemma_concat_counts(a, b.drop_last(), k);
        assert((a + b).drop_last() =~= a + b.drop_last());
        assert((a + b).last() == b.last());
    }
}

/// Summarising two lists of tiles one after the other adds up: the tile
/// counts and line totals add, and so does the count under every key.
pub proof fn lemma_stats_concat(
    a: Seq<CodeTile>,
    b: Seq<CodeTile>,
    sa: CodeStats,
    sb: CodeStats,
    sab: CodeStats,
)
    requires
        summarises(sa, a),
        summarises(sb, b),
        summarises(sab, a + b),
    ensures
        sab.tile_count == sa.tile_count + sb.tile_count,
        sab.total_lines == sa.total_lines + sb.total_lines,
        forall|s: Seq<char>|
            #[trigger] count_for(sab.kind_counts@, s) == count_for(sa.kind_counts@, s) + count_for(
                sb.kind_counts@,
                s,
            ),
{
    lemma_concat_counts(a, b, CodeKind::Function);
    lemma_count_for_kinds(sa.kind_counts@, a);
    lemma_count_for_kinds(sb.kind_counts@, b);
    lemma_count_for_kinds(sab.kind_counts@, a + b);
    assert forall|s: Seq<char>|
        #[trigger] count_for(sab.kind_counts@, s) == count_for(sa.kind_counts@, s) + count_for(
            sb.kind_counts@,
            s,
        ) by {
        if exists|k: CodeKind| #[trigger] kind_label(k) == s {
            let k = choose|k: CodeKind| #[trigger] kind_label(k) == s;
            lemma_concat_counts(a, b, k);
        }
    }
}

/// Total number of characters of the lines.
pub open spec fn sum_lens(ls: Seq<Seq<char>>) -> nat
    decreases ls.len(),
{
    if ls.len() == 0 {
        0
    } else {
        ls[0].len() + sum_lens(ls.drop_first())
    }
}

proof fn lemma_scan_line_bounded(l: Seq<char>, depth: int, found: bool)
    requires
        -(i32::MAX as int) <= depth - l.len(),
        depth + l.len() <= i32::MAX,
    ensures
        !(scan_line(l, depth, found) is Overflow),
        scan_line(l, depth, found) matches Scan::Open { depth: d, .. } ==> depth - l.len() <= d <= depth
            + l.len(),
    decreases l.len(),
{
    if l.len() > 0 {
        lemma_scan_line_bounded(l.drop_first(), depth + 1, true);
        lemma_scan_line_bounded(l.drop_first(), depth - 1, found);
        lemma_scan_line_bounded(l.drop_first(), depth, found);
    }
}

proof fn lemma_scan_lines_bounded(ls: Seq<Seq<char>>, i: int, depth: int, found: bool)
    requires
        0 <= i <= ls.len(),
        -(i32::MAX as int) <= depth - sum_lens(ls.skip(i)),
        depth + sum_lens(ls.skip(i)) <= i32::MAX,
    ensures
        !(scan_lines(ls, i, depth, found) is Overflow),
    decreases ls.len() - i,
{
    if i < ls.len() {
        assert(ls.skip(i).drop_first() =~= ls.skip(i + 1));
        assert(ls.skip(i)[0] == ls[i]);
        lemma_scan_line_bounded(ls[i], depth, found);
        match scan_line(ls[i], depth, found) {
            Scan::Open { depth: d, found: f } => lemma_scan_lines_bounded(ls, i + 1, d, f),
            _ => {},
        }
    }
}

proof fn lemma_sum_lens_skip(ls: Seq<Seq<char>>, i: int)
    requires
        0 <= i <= ls.len(),
    ensures
        sum_lens(ls.skip(i)) <= sum_lens(ls),
    decreases i,
{
    if i == 0 {
        assert(ls.skip(0) =~= ls);
    } else {
        lemma_sum_lens_skip(ls, i - 1);
        assert(ls.skip(i - 1).drop_first() =~= ls.skip(i));
    }
}

proof fn lemma_line_len_bound(s: Seq<char>)
    ensures
        line_len(s) <= s.len(),
    decreases s.len(),
{
    if s.len() > 0 {
        lemma_line_len_bound(s.drop_first());
    }
}

/// The lines of a text hold no more characters than the text.
proof fn lemma_lines_sum(s: Seq<char>)
    ensures
        sum_lens(lines_of(s)) <= s.len(),
    decreases s.len(),
{
    if s.len() > 0 {
        lemma_line_len_bound(s);
        let n = line_len(s);
        if n >= s.len() {
            assert(lines_of(s) == seq![s]);
            assert(seq![s].drop_first() =~= Seq::<Seq<char>>::empty());
            assert(sum_lens(seq![s]) == s.len() + sum_lens(Seq::<Seq<char>>::empty()));
        } else {
            let rest = lines_of(s.skip((n + 1) as int));
            let first = strip_cr(s.take(n as int));
            lemma_lines_sum(s.skip((n + 1) as int));
            assert(lines_of(s) == seq![first] + rest);
            assert(first.len() <= n);
            assert((seq![first] + rest).drop_first() =~= rest);
            assert((seq![first] + rest)[0] == first);
            assert(sum_lens(seq![first] + rest) == first.len() + sum_lens(rest));
        }
    }
}

/// A text of at most `i32::MAX` characters never drives the brace depth out
/// of the range of `i32`, so every reader accepts it.
pub proof fn lemma_short_text_braces_fit(lang: Language, s: Seq<char>)
    requires
        s.len() <= i32::MAX,
    ensures
        braces_fit(lang, lines_of(s)),
{
    let ls = lines_of(s);
    lemma_lines_sum(s);
    assert forall|i: int| 0 <= i < ls.len() && #[trigger] reads_braces(lang, ls, i) implies !(brace_end(
        ls,
        i,
    ) is Overflow) by {
        lemma_sum_lens_skip(ls, i);
        lemma_scan_lines_bounded(ls, i, 0, false);
    }
}

/// An empty text yields no tiles, whatever the language.
pub proof fn lemma_empty_text_no_tiles(lang: Language)
    ensures
        decomposition(lang, lines_of(Seq::<char>::empty())).len() == 0,
{
}

/// A file name whose extension names a language decides the language,
/// whatever the text.
pub proof fn lemma_extension_decides(a: Seq<char>, b: Seq<char>, name: Seq<char>)
    requires
        extension_language(after_last(name, '.')) is Some,
    ensures
        detected_language(a, Some(name)) == detected_language(b, Some(name)),
        detected_language(a, Some(name)) == extension_language(after_last(name, '.'))->0,
{
}

/// Without a file name, or with one whose extension names no language, the
/// language depends on the text alone.
pub proof fn lemma_text_decides_otherwise(input: Seq<char>, name: Seq<char>)
    requires
        extension_language(after_last(name, '.')) is None,
    ensures
        detected_language(input, Some(name)) == detected_language(input, None),
{
}

/// Every tile that selecting by kind keeps has that kind.
pub proof fn lemma_of_kind_all_match(ts: Seq<CodeTile>, k: CodeKind)
    ensures
        forall|j: int| 0 <= j < of_kind(ts, k).len() ==> (#[trigger] of_kind(ts, k)[j]).kind == k,
    decreases ts.len(),
{
    if ts.len() > 0 {
        lemma_of_kind_all_match(ts.drop_last(), k);
    }
}

/// Selecting by kind keeps every tile of that kind: the count is unchanged.
/// Selecting again by the same kind changes nothing.
pub proof fn lemma_of_kind_idempotent(ts: Seq<CodeTile>, k: CodeKind)
    ensures
        of_kind(of_kind(ts, k), k) == of_kind(ts, k),
        count_kind(of_kind(ts, k), k) == count_kind(ts, k),
    decreases ts.len(),
{
    if ts.len() > 0 {
        lemma_of_kind_idempotent(ts.drop_last(), k);
        let rest = of_kind(ts.drop_last(), k);
        if ts.last().kind == k {
            assert(rest.push(ts.last()).drop_last() =~= rest);
        }
    }
}

/// Selecting by kind leaves no tile of any other kind.
pub proof fn lemma_of_kind_excludes_others(ts: Seq<CodeTile>, k: CodeKind, other: CodeKind)
    requires
        other != k,
    ensures
        count_kind(of_kind(ts, k), other) == 0,
    decreases ts.len(),
{
    if ts.len() > 0 {
        lemma_of_kind_excludes_others(ts.drop_last(), k, other);
        let rest = of_kind(ts.drop_last(), k);
        if ts.last().kind == k {
            assert(rest.push(ts.last()).drop_last() =~= rest);
        }
    }
}

/// The counts of all kinds add up to the number of tiles.
pub proof fn lemma_kind_counts_sum(ts: Seq<CodeTile>)
    ensures
        count_kind(ts, CodeKind::Function) + count_kind(ts, CodeKind::Struct) + count_kind(ts, CodeKind::Enum)
            + count_kind(ts, CodeKind::Impl) + count_kind(ts, CodeKind::Trait) + count_kind(ts, CodeKind::Class)
            + count_kind(ts, CodeKind::Method) + count_kind(ts, CodeKind::Import) + count_kind(
            ts,
            CodeKind::Comment,
        ) + count_kind(ts, CodeKind::Module) + count_kind(ts, CodeKind::Block) + count_kind(ts, CodeKind::Test)
            == ts.len(),
    decreases ts.len(),
{
    if ts.len() > 0 {
        lemma_kind_counts_sum(ts.drop_last());
    }
}

} // verus!

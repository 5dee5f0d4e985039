//! Selecting tiles by kind and summarising a list of tiles.

use std::collections::HashMap;
use vstd::prelude::*;

use crate::decompose::CodeDecomposer;
use crate::external::insert_new_key;
use crate::text::{chars_of, string_of};
use crate::tile::{span, CodeKind, CodeStats, CodeTile};

verus! {

/// The tiles of `ts` whose kind is `k`, in their order.
pub open spec fn of_kind(ts: Seq<CodeTile>, k: CodeKind) -> Seq<CodeTile>
    decreases ts.len(),
{
    if ts.len() == 0 {
        seq![]
    } else {
        let rest = of_kind(ts.drop_last(), k);
        if ts.last().kind == k {
            rest.push(ts.last())
        } else {
            rest
        }
    }
}

/// How many tiles of `ts` have kind `k`.
pub open spec fn count_kind(ts: Seq<CodeTile>, k: CodeKind) -> nat {
    of_kind(ts, k).len()
}

/// Sum of the line counts of the tiles.
pub open spec fn total_span(ts: Seq<CodeTile>) -> nat
    decreases ts.len(),
{
    if ts.len() == 0 {
        0
    } else {
        total_span(ts.drop_last()) + span(ts.last().start_line as int, ts.last().end_line as int)
    }
}

/// `a` is a copy of `b`: same model, id and metadata.
pub open spec fn same_tile(a: CodeTile, b: CodeTile) -> bool {
    a@ == b@ && a.id == b.id && a.meta@ == b.meta@
}

/// The name of a kind, as `Debug` prints it.
pub open spec fn kind_label(k: CodeKind) -> Seq<char> {
    match k {
        CodeKind::Function => "Function"@,
        CodeKind::Struct => "Struct"@,
        CodeKind::Enum => "Enum"@,
        CodeKind::Impl => "Impl"@,
        CodeKind::Trait => "Trait"@,
        CodeKind::Class => "Class"@,
        CodeKind::Method => "Method"@,
        CodeKind::Import => "Import"@,
        CodeKind::Comment => "Comment"@,
        CodeKind::Module => "Module"@,
        CodeKind::Block => "Block"@,
        CodeKind::Test => "Test"@,
    }
}

/// Position of a kind in declaration order.
pub open spec fn kind_index(k: CodeKind) -> int {
    match k {
        CodeKind::Function => 0,
        CodeKind::Struct => 1,
        CodeKind::Enum => 2,
        CodeKind::Impl => 3,
        CodeKind::Trait => 4,
        CodeKind::Class => 5,
        CodeKind::Method => 6,
        CodeKind::Import => 7,
        CodeKind::Comment => 8,
        CodeKind::Module => 9,
        CodeKind::Block => 10,
        CodeKind::Test => 11,
    }
}

/// No two keys of `m` have the same text.
pub open spec fn keys_distinct<V>(m: Map<String, V>) -> bool {
    forall|k1: String, k2: String|
        #[trigger] m.contains_key(k1) && #[trigger] m.contains_key(k2) && k1@ == k2@ ==> k1 == k2
}

/// `m` maps the name of each kind that occurs in `ts` to the number of its
/// tiles, once, and holds no other key.
pub open spec fn counts_by_kind(m: Map<String, usize>, ts: Seq<CodeTile>) -> bool {
    &&& keys_distinct(m)
    &&& forall|key: String|
        #[trigger] m.contains_key(key) ==> exists|k: CodeKind|
            key@ == #[trigger] kind_label(k) && count_kind(ts, k) > 0 && m[key] == count_kind(ts, k)
    &&& forall|k: CodeKind|
        #[trigger] count_kind(ts, k) > 0 ==> exists|key: String|
            #[trigger] m.contains_key(key) && key@ == kind_label(k)
}

/// The count that `m` holds under a key with text `s`, or 0 when no key has
/// that text.
pub open spec fn count_for(m: Map<String, usize>, s: Seq<char>) -> int {
    if exists|key: String| #[trigger] m.contains_key(key) && key@ == s {
        m[choose|key: String| #[trigger] m.contains_key(key) && key@ == s] as int
    } else {
        0
    }
}

/// `st` is what `stats` gives for `ts`.
pub open spec fn summarises(st: CodeStats, ts: Seq<CodeTile>) -> bool {
    &&& st.tile_count == ts.len()
    &&& st.total_lines == total_span(ts)
    &&& counts_by_kind(st.kind_counts@, ts)
}

/// Different kinds have different names.
pub proof fn lemma_kind_labels_distinct(a: CodeKind, b: CodeKind)
    ensures
        kind_label(a) == kind_label(b) ==> a == b,
{
    reveal_strlit("Function");
    reveal_strlit("Struct");
    reveal_strlit("Enum");
    reveal_strlit("Impl");
    reveal_strlit("Trait");
    reveal_strlit("Class");
    reveal_strlit("Method");
    reveal_strlit("Import");
    reveal_strlit("Comment");
    reveal_strlit("Module");
    reveal_strlit("Block");
    reveal_strlit("Test");
    if kind_label(a) == kind_label(b) && a != b {
        let la = kind_label(a);
        let lb = kind_label(b);
        assert(la.len() == lb.len());
        assert(la[0] == lb[0]);
        assert(la[1] == lb[1]);
    }
}

/// No more tiles have a kind than there are tiles.
pub proof fn lemma_count_kind_bound(ts: Seq<CodeTile>, k: CodeKind)
    ensures
        count_kind(ts, k) <= ts.len(),
    decreases ts.len(),
{
    if ts.len() > 0 {
        lemma_count_kind_bound(ts.drop_last(), k);
    }
}

/// The kind at position `i` in declaration order.
fn kind_at(i: usize) -> (k: CodeKind)
    requires
        i < 12,
    ensures
        kind_index(k) == i,
{
    match i {
        0 => CodeKind::Function,
        1 => CodeKind::Struct,
        2 => CodeKind::Enum,
        3 => CodeKind::Impl,
        4 => CodeKind::Trait,
        5 => CodeKind::Class,
        6 => CodeKind::Method,
        7 => CodeKind::Import,
        8 => CodeKind::Comment,
        9 => CodeKind::Module,
        10 => CodeKind::Block,
        _ => CodeKind::Test,
    }
}

/// Position of `k` in declaration order.
fn index_of_kind(k: CodeKind) -> (i: usize)
    ensures
        i == kind_index(k),
        i < 12,
{
    match k {
        CodeKind::Function => 0,
        CodeKind::Struct => 1,
        CodeKind::Enum => 2,
        CodeKind::Impl => 3,
        CodeKind::Trait => 4,
        CodeKind::Class => 5,
        CodeKind::Method => 6,
        CodeKind::Import => 7,
        CodeKind::Comment => 8,
        CodeKind::Module => 9,
        CodeKind::Block => 10,
        CodeKind::Test => 11,
    }
}

/// The name of `k` as a string.
fn kind_name(k: CodeKind) -> (r: String)
    ensures
        r@ == kind_label(k),
{
    let c = match k {
        CodeKind::Function => chars_of("Function"),
        CodeKind::Struct => chars_of("Struct"),
        CodeKind::Enum => chars_of("Enum"),
        CodeKind::Impl => chars_of("Impl"),
        CodeKind::Trait => chars_of("Trait"),
        CodeKind::Class => chars_of("Class"),
        CodeKind::Method => chars_of("Method"),
        CodeKind::Import => chars_of("Import"),
        CodeKind::Comment => chars_of("Comment"),
        CodeKind::Module => chars_of("Module"),
        CodeKind::Block => chars_of("Block"),
        CodeKind::Test => chars_of("Test"),
    };
    string_of(c.as_slice())
}

/// Keys of `m` name kinds before position `idx` that occur in `ts`, with
/// their counts.
#[verifier::opaque]
spec fn keys_counted(m: Map<String, usize>, ts: Seq<CodeTile>, idx: int) -> bool {
    forall|key: String|
        #[trigger] m.contains_key(key) ==> exists|k: CodeKind|
            key@ == #[trigger] kind_label(k) && kind_index(k) < idx && count_kind(ts, k) > 0 && m[key]
                == count_kind(ts, k)
}

/// Each kind before position `idx` that occurs in `ts` has its name as a key.
#[verifier::opaque]
spec fn kinds_keyed(m: Map<String, usize>, ts: Seq<CodeTile>, idx: int) -> bool {
    forall|k: CodeKind|
        #[trigger] count_kind(ts, k) > 0 && kind_index(k) < idx ==> exists|key: String|
            #[trigger] m.contains_key(key) && key@ == kind_label(k)
}

proof fn lemma_name_is_new(m: Map<String, usize>, ts: Seq<CodeTile>, idx: int, k: CodeKind, key: String)
    requires
        keys_counted(m, ts, idx),
        kind_index(k) == idx,
        key@ == kind_label(k),
    ensures
        forall|k0: String| #[trigger] m.contains_key(k0) ==> k0@ != key@,
{
    reveal(keys_counted);
    assert forall|k0: String| #[trigger] m.contains_key(k0) implies k0@ != key@ by {
        let w = choose|w: CodeKind|
            k0@ == #[trigger] kind_label(w) && kind_index(w) < idx && count_kind(ts, w) > 0 && m[k0]
                == count_kind(ts, w);
        lemma_kind_labels_distinct(w, k);
    }
}

proof fn lemma_count_added(
    m: Map<String, usize>,
    ts: Seq<CodeTile>,
    idx: int,
    k: CodeKind,
    key: String,
    c: usize,
)
    requires
        keys_counted(m, ts, idx),
        kinds_keyed(m, ts, idx),
        kind_index(k) == idx,
        key@ == kind_label(k),
        c == count_kind(ts, k),
        c > 0,
        forall|k0: String| #[trigger] m.contains_key(k0) ==> k0@ != key@,
    ensures
        keys_counted(m.insert(key, c), ts, idx + 1),
        kinds_keyed(m.insert(key, c), ts, idx + 1),
{
    reveal(keys_counted);
    reveal(kinds_keyed);
    let m2 = m.insert(key, c);
    assert forall|key2: String| #[trigger] m2.contains_key(key2) implies exists|k2: CodeKind|
        key2@ == #[trigger] kind_label(k2) && kind_index(k2) < idx + 1 && count_kind(ts, k2) > 0
            && m2[key2] == count_kind(ts, k2) by {
        if key2 == key {
            assert(key2@ == kind_label(k));
        } else {
            assert(m.contains_key(key2));
        }
    }
    assert forall|k2: CodeKind| #[trigger] count_kind(ts, k2) > 0 && kind_index(k2) < idx + 1 implies exists|key2: String|
        #[trigger] m2.contains_key(key2) && key2@ == kind_label(k2) by {
        if kind_index(k2) == idx {
            assert(k2 == k);
            assert(m2.contains_key(key));
        } else {
            let w = choose|w: String| #[trigger] m.contains_key(w) && w@ == kind_label(k2);
            assert(m2.contains_key(w));
        }
    }
}

proof fn lemma_count_skipped(m: Map<String, usize>, ts: Seq<CodeTile>, idx: int, k: CodeKind)
    requires
        keys_counted(m, ts, idx),
        kinds_keyed(m, ts, idx),
        kind_index(k) == idx,
        count_kind(ts, k) == 0,
    ensures
        keys_counted(m, ts, idx + 1),
        kinds_keyed(m, ts, idx + 1),
{
    reveal(keys_counted);
    reveal(kinds_keyed);
    assert forall|key2: String| #[trigger] m.contains_key(key2) implies exists|k2: CodeKind|
        key2@ == #[trigger] kind_label(k2) && kind_index(k2) < idx + 1 && count_kind(ts, k2) > 0
            && m[key2] == count_kind(ts, k2) by {
        let w = choose|w: CodeKind|
            key2@ == #[trigger] kind_label(w) && kind_index(w) < idx && count_kind(ts, w) > 0 && m[key2]
                == count_kind(ts, w);
    }
    assert forall|k2: CodeKind| #[trigger] count_kind(ts, k2) > 0 && kind_index(k2) < idx + 1 implies exists|key2: String|
        #[trigger] m.contains_key(key2) && key2@ == kind_label(k2) by {
        if kind_index(k2) == idx {
            assert(k2 == k);
        }
    }
}

/// Adding a key whose text no key has keeps the keys distinct.
proof fn lemma_distinct_insert<V>(m: Map<String, V>, key: String, v: V)
    requires
        keys_distinct(m),
        forall|k0: String| #[trigger] m.contains_key(k0) ==> k0@ != key@,
    ensures
        keys_distinct(m.insert(key, v)),
{
    let m2 = m.insert(key, v);
    assert forall|k1: String, k2: String|
        #[trigger] m2.contains_key(k1) && #[trigger] m2.contains_key(k2) && k1@ == k2@ implies k1 == k2 by {
        if k1 != key && k2 != key {
            assert(m.contains_key(k1) && m.contains_key(k2));
        } else if k1 == key && k2 != key {
            assert(m.contains_key(k2));
        } else if k2 == key && k1 != key {
            assert(m.contains_key(k1));
        }
    }
}

proof fn lemma_all_counted(m: Map<String, usize>, ts: Seq<CodeTile>)
    requires
        keys_distinct(m),
        keys_counted(m, ts, 12),
        kinds_keyed(m, ts, 12),
    ensures
        counts_by_kind(m, ts),
{
    reveal(keys_counted);
    reveal(kinds_keyed);
    assert forall|key: String| #[trigger] m.contains_key(key) implies exists|k: CodeKind|
        key@ == #[trigger] kind_label(k) && count_kind(ts, k) > 0 && m[key] == count_kind(ts, k) by {
        let w = choose|w: CodeKind|
            key@ == #[trigger] kind_label(w) && kind_index(w) < 12 && count_kind(ts, w) > 0 && m[key]
                == count_kind(ts, w);
    }
    assert forall|k: CodeKind| #[trigger] count_kind(ts, k) > 0 implies exists|key: String|
        #[trigger] m.contains_key(key) && key@ == kind_label(k) by {
        assert(kind_index(k) < 12);
    }
}

/// A map from the name of each kind that occurs in `tiles` to its count,
/// given the counts in declaration order.
fn count_map(tiles: &[CodeTile], counts: &[usize]) -> (m: HashMap<String, usize>)
    requires
        counts@.len() == 12,
        forall|k: CodeKind| #[trigger] counts@[kind_index(k)] == count_kind(tiles@, k),
    ensures
        counts_by_kind(m@, tiles@),
{
    let mut m: HashMap<String, usize> = HashMap::new();
    proof {
        reveal(keys_counted);
        reveal(kinds_keyed);
    }
    for idx in 0..12usize
        invariant
            counts@.len() == 12,
            forall|k: CodeKind| #[trigger] counts@[kind_index(k)] == count_kind(tiles@, k),
            keys_counted(m@, tiles@, idx as int),
            kinds_keyed(m@, tiles@, idx as int),
            keys_distinct(m@),
    {
        let k = kind_at(idx);
        let c = counts[idx];
        assert(c == count_kind(tiles@, k));
        if c > 0 {
            let name = kind_name(k);
            proof {
                lemma_name_is_new(m@, tiles@, idx as int, k, name);
                lemma_count_added(m@, tiles@, idx as int, k, name, c);
                lemma_distinct_insert(m@, name, c);
            }
            insert_new_key(&mut m, name, c);
        } else {
            proof {
                lemma_count_skipped(m@, tiles@, idx as int, k);
            }
        }
    }
    proof {
        lemma_all_counted(m@, tiles@);
    }
    m
}

impl CodeDecomposer {
    /// Copies of the tiles whose kind is `kind`, in their order.
    pub fn filter_by_kind(tiles: &[CodeTile], kind: &CodeKind) -> (r: Vec<CodeTile>)
        ensures
            r@.len() == of_kind(tiles@, *kind).len(),
            forall|j: int| 0 <= j < r@.len() ==> same_tile(#[trigger] r@[j], of_kind(tiles@, *kind)[j]),
    {
        let n = tiles.len();
        let mut r: Vec<CodeTile> = Vec::new();
        for i in 0..n
            invariant
                n == tiles@.len(),
                r@.len() == of_kind(tiles@.take(i as int), *kind).len(),
                forall|j: int|
                    0 <= j < r@.len() ==> same_tile(#[trigger] r@[j], of_kind(tiles@.take(i as int), *kind)[j]),
        {
            assert(tiles@.take(i + 1).drop_last() =~= tiles@.take(i as int));
            assert(tiles@.take(i + 1).last() == tiles@[i as int]);
            if tiles[i].kind == *kind {
                let t = tiles[i].clone();
                r.push(t);
            }
        }
        assert(tiles@.take(n as int) =~= tiles@);
        r
    }

    /// The number of tiles, the sum of their line counts, and for each kind
    /// that occurs the number of its tiles, keyed by the kind's name.
    pub fn stats(tiles: &[CodeTile]) -> (r: CodeStats)
        requires
            total_span(tiles@) <= usize::MAX,
        ensures
            r.tile_count == tiles@.len(),
            r.total_lines == total_span(tiles@),
            counts_by_kind(r.kind_counts@, tiles@),
            summarises(r, tiles@),
    {
        let n = tiles.len();
        let mut counts: Vec<usize> = Vec::new();
        for idx in 0..12usize
            invariant
                counts@.len() == idx,
                forall|j: int| 0 <= j < idx ==> counts@[j] == 0,
        {
            counts.push(0);
        }
        let mut total: usize = 0;
        for i in 0..n
            invariant
                n == tiles@.len(),
                counts@.len() == 12,
                total_span(tiles@) <= usize::MAX,
                total == total_span(tiles@.take(i as int)),
                forall|k: CodeKind| #[trigger] counts@[kind_index(k)] == count_kind(tiles@.take(i as int), k),
        {
            let ghost before = tiles@.take(i as int);
            assert(tiles@.take(i + 1).drop_last() =~= before);
            assert(tiles@.take(i + 1).last() == tiles@[i as int]);
            proof {
                lemma_total_span_prefix(tiles@, i + 1);
                lemma_count_kind_bound(before, tiles@[i as int].kind);
            }
            let t = &tiles[i];
            total = total + if t.end_line >= t.start_line {
                t.end_line - t.start_line + 1
            } else {
                1
            };
            let idx = index_of_kind(t.kind);
            let c = counts[idx];
            counts.set(idx, c + 1);
            assert forall|k: CodeKind| #[trigger] counts@[kind_index(k)] == count_kind(tiles@.take(i + 1), k) by {
                if k != t.kind {
                    assert(kind_index(k) != kind_index(t.kind));
                }
            }
        }
        assert(tiles@.take(n as int) =~= tiles@);
        let kind_counts = count_map(tiles, counts.as_slice());
        CodeStats { tile_count: n, total_lines: total, kind_counts }
    }
}

/// The line count of a prefix of the tiles is at most that of all of them.
proof fn lemma_total_span_prefix(ts: Seq<CodeTile>, i: int)
    requires
        0 <= i <= ts.len(),
    ensures
        total_span(ts.take(i)) <= total_span(ts),
    decreases ts.len() - i,
{
    if i < ts.len() {
        lemma_total_span_prefix(ts, i + 1);
        assert(ts.take(i + 1).drop_last() =~= ts.take(i));
    } else {
        assert(ts.take(i) =~= ts);
    }
}

} // verus!

//! What each line-by-line reader makes of a line, stated from the line's
//! own text: which kind of tile starts on it, under which name, or that no
//! tile starts on it.

use vstd::prelude::*;

use crate::blocks::{
    after_last, brace_end, brace_extent, first_piece, indent_extent, lemma_first_match_matches,
    name_after_spec, BlockEnd, Stop,
};
use crate::laws::{lemma_brace_extent_range, lemma_line_tile_placed};
use crate::model::{block_tile, decomposition, detected_language, generic_tiles, braced, indented, line_tile, line_tiles, one_line};
use crate::text::{has_prefix, has_sub, is_blank, is_ws, join_lines, lead_ws, trim, trim_end};
use crate::tile::{CodeKind, Language, TileModel};

verus! {

/// The tiles that the reader for `d` makes of the lines `ls` for a
/// decomposer of language `lang` (what `decompose_rust`, `decompose_python`,
/// `decompose_ts`, `decompose_go`, `decompose_c` and `decompose_java` return,
/// ids and metadata aside).
pub open spec fn read(d: Language, ls: Seq<Seq<char>>, lang: Language) -> Seq<TileModel> {
    line_tiles(d, ls, ls.len() as int, lang)
}

/// Some tile of `ts` starts on line `i` (0-based) with this kind and name.
pub open spec fn starts_tile(ts: Seq<TileModel>, i: int, kind: CodeKind, name: Seq<char>) -> bool {
    exists|j: int|
        0 <= j < ts.len() && (#[trigger] ts[j]).start_line == i + 1 && ts[j].kind == kind
            && ts[j].name == name
}

/// Some tile of `ts` covers exactly line `i` (0-based), with this kind, name
/// and body.
pub open spec fn one_line_tile_on(
    ts: Seq<TileModel>,
    i: int,
    kind: CodeKind,
    name: Seq<char>,
    body: Seq<char>,
) -> bool {
    exists|j: int|
        0 <= j < ts.len() && (#[trigger] ts[j]).start_line == i + 1 && ts[j].end_line == i + 1
            && ts[j].kind == kind && ts[j].name == name && ts[j].body == body
}

/// Some tile of `ts` is the brace block from line `i` (0-based), with this
/// kind and name.
pub open spec fn brace_tile_on(
    ts: Seq<TileModel>,
    ls: Seq<Seq<char>>,
    i: int,
    kind: CodeKind,
    name: Seq<char>,
) -> bool {
    exists|j: int|
        0 <= j < ts.len() && (#[trigger] ts[j]).start_line == i + 1 && ts[j].end_line
            == brace_extent(ls, i).1 + 1 && ts[j].body == brace_extent(ls, i).0 && ts[j].kind == kind
            && ts[j].name == name
}

/// Some tile of `ts` is the indented block headed by line `i` (0-based),
/// with this kind and name.
pub open spec fn indent_tile_on(
    ts: Seq<TileModel>,
    ls: Seq<Seq<char>>,
    i: int,
    kind: CodeKind,
    name: Seq<char>,
) -> bool {
    exists|j: int|
        0 <= j < ts.len() && (#[trigger] ts[j]).start_line == i + 1 && ts[j].end_line
            == indent_extent(ls, i).1 + 1 && ts[j].body == indent_extent(ls, i).0 && ts[j].kind == kind
            && ts[j].name == name
}

/// No tile of `ts` starts on line `i` (0-based).
pub open spec fn no_tile_on(ts: Seq<TileModel>, i: int) -> bool {
    forall|j: int| 0 <= j < ts.len() ==> (#[trigger] ts[j]).start_line != i + 1
}

proof fn lemma_line_tiles_has(d: Language, ls: Seq<Seq<char>>, n: int, lang: Language, i: int)
    requires
        0 <= i < n,
        line_tile(d, ls, i, lang) is Some,
    ensures
        exists|j: int|
            0 <= j < line_tiles(d, ls, n, lang).len() && #[trigger] line_tiles(d, ls, n, lang)[j]
                == line_tile(d, ls, i, lang)->0,
    decreases n,
{
    let ts = line_tiles(d, ls, n, lang);
    let prev = line_tiles(d, ls, n - 1, lang);
    if i == n - 1 {
        assert(ts[ts.len() - 1] == line_tile(d, ls, i, lang)->0);
    } else {
        lemma_line_tiles_has(d, ls, n - 1, lang, i);
        let j = choose|j: int| 0 <= j < prev.len() && #[trigger] prev[j] == line_tile(d, ls, i, lang)->0;
        assert(ts[j] == prev[j]);
    }
}

proof fn lemma_line_tiles_from(d: Language, ls: Seq<Seq<char>>, n: int, lang: Language, j: int)
    requires
        0 <= n <= ls.len(),
        0 <= j < line_tiles(d, ls, n, lang).len(),
    ensures
        exists|i: int|
            0 <= i < n && #[trigger] line_tile(d, ls, i, lang) == Some(line_tiles(d, ls, n, lang)[j]),
    decreases n,
{
    let ts = line_tiles(d, ls, n, lang);
    let prev = line_tiles(d, ls, n - 1, lang);
    if j < prev.len() {
        lemma_line_tiles_from(d, ls, n - 1, lang, j);
        assert(ts[j] == prev[j]);
    } else {
        assert(line_tile(d, ls, n - 1, lang) == Some(ts[j]));
    }
}

/// The tile that line `i` opens appears among the reader's tiles, and when
/// the line opens none, no tile starts on it.
proof fn lemma_tile_on_line(d: Language, ls: Seq<Seq<char>>, lang: Language, i: int)
    requires
        0 <= i < ls.len(),
    ensures
        line_tile(d, ls, i, lang) is Some ==> exists|j: int|
            0 <= j < read(d, ls, lang).len() && #[trigger] read(d, ls, lang)[j] == line_tile(d, ls, i, lang)->0,
        line_tile(d, ls, i, lang) is None ==> no_tile_on(read(d, ls, lang), i),
{
    let ts = read(d, ls, lang);
    if line_tile(d, ls, i, lang) is Some {
        lemma_line_tiles_has(d, ls, ls.len() as int, lang, i);
    } else {
        assert forall|j: int| 0 <= j < ts.len() implies (#[trigger] ts[j]).start_line != i + 1 by {
            lemma_line_tiles_from(d, ls, ls.len() as int, lang, j);
            let k = choose|k: int| 0 <= k < ls.len() && #[trigger] line_tile(d, ls, k, lang) == Some(ts[j]);
            lemma_line_tile_placed(d, ls, k, lang);
        }
    }
}

proof fn lemma_prefix_at(t: Seq<char>, p: Seq<char>, k: int)
    requires
        has_prefix(t, p),
        0 <= k < p.len(),
    ensures
        t[k] == p[k],
{
    assert(t.take(p.len() as int)[k] == t[k]);
}

/// A text with prefix `p` lacks any prefix `q` that differs from `p` at `k`.
proof fn lemma_not_prefix(t: Seq<char>, p: Seq<char>, q: Seq<char>, k: int)
    requires
        has_prefix(t, p),
        0 <= k < p.len(),
        k < q.len(),
        p[k] != q[k],
    ensures
        !has_prefix(t, q),
{
    lemma_prefix_at(t, p, k);
    if has_prefix(t, q) {
        lemma_prefix_at(t, q, k);
    }
}

/// When line `i` opens the brace-block tile of this kind and name, the
/// reader's tiles hold it.
proof fn lemma_brace_on(d: Language, ls: Seq<Seq<char>>, lang: Language, i: int, kind: CodeKind, name: Seq<char>)
    requires
        0 <= i < ls.len(),
        line_tile(d, ls, i, lang) == Some(braced(kind, name, ls, i, lang)),
    ensures
        brace_tile_on(read(d, ls, lang), ls, i, kind, name),
{
    lemma_tile_on_line(d, ls, lang, i);
    let ts = read(d, ls, lang);
    let j = choose|j: int| 0 <= j < ts.len() && #[trigger] ts[j] == line_tile(d, ls, i, lang)->0;
    assert(ts[j].start_line == i + 1);
}

/// When line `i` opens the one-line tile of this kind and name, the reader's
/// tiles hold it, with the trimmed line as its body.
proof fn lemma_one_line_on(d: Language, ls: Seq<Seq<char>>, lang: Language, i: int, kind: CodeKind, name: Seq<char>)
    requires
        0 <= i < ls.len(),
        line_tile(d, ls, i, lang) == Some(one_line(kind, name, trim(ls[i]), i, lang)),
    ensures
        one_line_tile_on(read(d, ls, lang), i, kind, name, trim(ls[i])),
{
    lemma_tile_on_line(d, ls, lang, i);
    let ts = read(d, ls, lang);
    let j = choose|j: int| 0 <= j < ts.len() && #[trigger] ts[j] == line_tile(d, ls, i, lang)->0;
    assert(ts[j].start_line == i + 1);
}

/// When line `i` opens the indented-block tile of this kind and name, the
/// reader's tiles hold it.
proof fn lemma_indent_on(d: Language, ls: Seq<Seq<char>>, lang: Language, i: int, kind: CodeKind, name: Seq<char>)
    requires
        0 <= i < ls.len(),
        line_tile(d, ls, i, lang) == Some(indented(kind, name, ls, i, lang)),
    ensures
        indent_tile_on(read(d, ls, lang), ls, i, kind, name),
{
    lemma_tile_on_line(d, ls, lang, i);
    let ts = read(d, ls, lang);
    let j = choose|j: int| 0 <= j < ts.len() && #[trigger] ts[j] == line_tile(d, ls, i, lang)->0;
    assert(ts[j].start_line == i + 1);
}

/// When line `i` opens no tile, none starts on it.
proof fn lemma_none_on(d: Language, ls: Seq<Seq<char>>, lang: Language, i: int)
    requires
        0 <= i < ls.len(),
        line_tile(d, ls, i, lang) is None,
    ensures
        no_tile_on(read(d, ls, lang), i),
{
    lemma_tile_on_line(d, ls, lang, i);
}

/// A Rust line that starts (after trimming) with `enum ` or `pub enum `
/// opens an enum tile named by the word after `enum `, spanning its brace
/// block.
pub proof fn lemma_rust_enum_line(ls: Seq<Seq<char>>, lang: Language, i: int)
    requires
        0 <= i < ls.len(),
        has_prefix(trim(ls[i]), "enum "@) || has_prefix(trim(ls[i]), "pub enum "@),
    ensures
        brace_tile_on(read(Language::Rust, ls, lang), ls, i, CodeKind::Enum, name_after_spec(trim(ls[i]), "enum "@)),
{
    reveal_strlit("use ");
    reveal_strlit("fn ");
    reveal_strlit("pub fn ");
    reveal_strlit("async fn ");
    reveal_strlit("pub async fn ");
    reveal_strlit("struct ");
    reveal_strlit("pub struct ");
    reveal_strlit("enum ");
    reveal_strlit("pub enum ");
    let t = trim(ls[i]);
    if has_prefix(t, "enum "@) {
        lemma_not_prefix(t, "enum "@, "use "@, 0);
        lemma_not_prefix(t, "enum "@, "fn "@, 0);
        lemma_not_prefix(t, "enum "@, "pub fn "@, 0);
        lemma_not_prefix(t, "enum "@, "async fn "@, 0);
        lemma_not_prefix(t, "enum "@, "pub async fn "@, 0);
        lemma_not_prefix(t, "enum "@, "struct "@, 0);
        lemma_not_prefix(t, "enum "@, "pub struct "@, 0);
    } else {
        lemma_not_prefix(t, "pub enum "@, "use "@, 0);
        lemma_not_prefix(t, "pub enum "@, "fn "@, 0);
        lemma_not_prefix(t, "pub enum "@, "pub fn "@, 4);
        lemma_not_prefix(t, "pub enum "@, "async fn "@, 0);
        lemma_not_prefix(t, "pub enum "@, "pub async fn "@, 4);
        lemma_not_prefix(t, "pub enum "@, "struct "@, 0);
        lemma_not_prefix(t, "pub enum "@, "pub struct "@, 4);
    }
    lemma_brace_on(Language::Rust, ls, lang, i, CodeKind::Enum, name_after_spec(t, "enum "@));
}

/// A Rust line that starts (after trimming) with `use ` is a one-line import
/// tile named by, and holding, the trimmed line.
pub proof fn lemma_rust_use_line(ls: Seq<Seq<char>>, lang: Language, i: int)
    requires
        0 <= i < ls.len(),
        has_prefix(trim(ls[i]), "use "@),
    ensures
        one_line_tile_on(read(Language::Rust, ls, lang), i, CodeKind::Import, trim(ls[i]), trim(ls[i])),
{
    reveal_strlit("use ");
    let t = trim(ls[i]);
    lemma_one_line_on(Language::Rust, ls, lang, i, CodeKind::Import, trim(ls[i]));
}

/// A Rust line that starts with `fn `, `pub fn `, `async fn ` or
/// `pub async fn ` opens a function tile over its brace block, named by the
/// word after `fn `; it is a test when that name starts with `test_`.
pub proof fn lemma_rust_fn_line(ls: Seq<Seq<char>>, lang: Language, i: int)
    requires
        0 <= i < ls.len(),
        has_prefix(trim(ls[i]), "fn "@) || has_prefix(trim(ls[i]), "pub fn "@) || has_prefix(trim(ls[i]), "async fn "@) || has_prefix(trim(ls[i]), "pub async fn "@),
    ensures
        brace_tile_on(read(Language::Rust, ls, lang), ls, i, (if has_prefix(name_after_spec(trim(ls[i]), "fn "@), "test_"@) { CodeKind::Test } else { CodeKind::Function }), name_after_spec(trim(ls[i]), "fn "@)),
{
    reveal_strlit("async fn ");
    reveal_strlit("fn ");
    reveal_strlit("pub async fn ");
    reveal_strlit("pub fn ");
    reveal_strlit("test_");
    reveal_strlit("use ");
    let t = trim(ls[i]);
    if has_prefix(t, "fn "@) {
        lemma_not_prefix(t, "fn "@, "use "@, 0);
    } else if has_prefix(t, "pub fn "@) {
        lemma_not_prefix(t, "pub fn "@, "use "@, 0);
    } else if has_prefix(t, "async fn "@) {
        lemma_not_prefix(t, "async fn "@, "use "@, 0);
    } else {
        lemma_not_prefix(t, "pub async fn "@, "use "@, 0);
    }
    lemma_brace_on(Language::Rust, ls, lang, i, (if has_prefix(name_after_spec(trim(ls[i]), "fn "@), "test_"@) { CodeKind::Test } else { CodeKind::Function }), name_after_spec(trim(ls[i]), "fn "@));
}

/// A Rust line that starts with `struct ` or `pub struct ` opens a struct
/// tile over its brace block, named by the word after `struct `.
pub proof fn lemma_rust_struct_line(ls: Seq<Seq<char>>, lang: Language, i: int)
    requires
        0 <= i < ls.len(),
        has_prefix(trim(ls[i]), "struct "@) || has_prefix(trim(ls[i]), "pub struct "@),
    ensures
        brace_tile_on(read(Language::Rust, ls, lang), ls, i, CodeKind::Struct, name_after_spec(trim(ls[i]), "struct "@)),
{
    reveal_strlit("async fn ");
    reveal_strlit("fn ");
    reveal_strlit("pub async fn ");
    reveal_strlit("pub fn ");
    reveal_strlit("pub struct ");
    reveal_strlit("struct ");
    reveal_strlit("use ");
    let t = trim(ls[i]);
    if has_prefix(t, "struct "@) {
        lemma_not_prefix(t, "struct "@, "use "@, 0);
        lemma_not_prefix(t, "struct "@, "fn "@, 0);
        lemma_not_prefix(t, "struct "@, "pub fn "@, 0);
        lemma_not_prefix(t, "struct "@, "async fn "@, 0);
        lemma_not_prefix(t, "struct "@, "pub async fn "@, 0);
    } else {
        lemma_not_prefix(t, "pub struct "@, "use "@, 0);
        lemma_not_prefix(t, "pub struct "@, "fn "@, 0);
        lemma_not_prefix(t, "pub struct "@, "pub fn "@, 4);
        lemma_not_prefix(t, "pub struct "@, "async fn "@, 0);
        lemma_not_prefix(t, "pub struct "@, "pub async fn "@, 4);
    }
    lemma_brace_on(Language::Rust, ls, lang, i, CodeKind::Struct, name_after_spec(trim(ls[i]), "struct "@));
}

/// A Rust line that starts with `impl ` opens an impl tile over its brace
/// block, named by the word after `impl `.
pub proof fn lemma_rust_impl_line(ls: Seq<Seq<char>>, lang: Language, i: int)
    requires
        0 <= i < ls.len(),
        has_prefix(trim(ls[i]), "impl "@),
    ensures
        brace_tile_on(read(Language::Rust, ls, lang), ls, i, CodeKind::Impl, name_after_spec(trim(ls[i]), "impl "@)),
{
    reveal_strlit("async fn ");
    reveal_strlit("enum ");
    reveal_strlit("fn ");
    reveal_strlit("impl ");
    reveal_strlit("pub async fn ");
    reveal_strlit("pub enum ");
    reveal_strlit("pub fn ");
    reveal_strlit("pub struct ");
    reveal_strlit("struct ");
    reveal_strlit("use ");
    let t = trim(ls[i]);
        lemma_not_prefix(t, "impl "@, "use "@, 0);
        lemma_not_prefix(t, "impl "@, "fn "@, 0);
        lemma_not_prefix(t, "impl "@, "pub fn "@, 0);
        lemma_not_prefix(t, "impl "@, "async fn "@, 0);
        lemma_not_prefix(t, "impl "@, "pub async fn "@, 0);
        lemma_not_prefix(t, "impl "@, "struct "@, 0);
        lemma_not_prefix(t, "impl "@, "pub struct "@, 0);
        lemma_not_prefix(t, "impl "@, "enum "@, 0);
        lemma_not_prefix(t, "impl "@, "pub enum "@, 0);
    lemma_brace_on(Language::Rust, ls, lang, i, CodeKind::Impl, name_after_spec(trim(ls[i]), "impl "@));
}

/// A Rust line that starts with `trait ` or `pub trait ` opens a trait tile
/// over its brace block, named by the word after `trait `.
pub proof fn lemma_rust_trait_line(ls: Seq<Seq<char>>, lang: Language, i: int)
    requires
        0 <= i < ls.len(),
        has_prefix(trim(ls[i]), "trait "@) || has_prefix(trim(ls[i]), "pub trait "@),
    ensures
        brace_tile_on(read(Language::Rust, ls, lang), ls, i, CodeKind::Trait, name_after_spec(trim(ls[i]), "trait "@)),
{
    reveal_strlit("async fn ");
    reveal_strlit("enum ");
    reveal_strlit("fn ");
    reveal_strlit("impl ");
    reveal_strlit("pub async fn ");
    reveal_strlit("pub enum ");
    reveal_strlit("pub fn ");
    reveal_strlit("pub struct ");
    reveal_strlit("pub trait ");
    reveal_strlit("struct ");
    reveal_strlit("trait ");
    reveal_strlit("use ");
    let t = trim(ls[i]);
    if has_prefix(t, "trait "@) {
        lemma_not_prefix(t, "trait "@, "use "@, 0);
        lemma_not_prefix(t, "trait "@, "fn "@, 0);
        lemma_not_prefix(t, "trait "@, "pub fn "@, 0);
        lemma_not_prefix(t, "trait "@, "async fn "@, 0);
        lemma_not_prefix(t, "trait "@, "pub async fn "@, 0);
        lemma_not_prefix(t, "trait "@, "struct "@, 0);
        lemma_not_prefix(t, "trait "@, "pub struct "@, 0);
        lemma_not_prefix(t, "trait "@, "enum "@, 0);
        lemma_not_prefix(t, "trait "@, "pub enum "@, 0);
        lemma_not_prefix(t, "trait "@, "impl "@, 0);
    } else {
        lemma_not_prefix(t, "pub trait "@, "use "@, 0);
        lemma_not_prefix(t, "pub trait "@, "fn "@, 0);
        lemma_not_prefix(t, "pub trait "@, "pub fn "@, 4);
        lemma_not_prefix(t, "pub trait "@, "async fn "@, 0);
        lemma_not_prefix(t, "pub trait "@, "pub async fn "@, 4);
        lemma_not_prefix(t, "pub trait "@, "struct "@, 0);
        lemma_not_prefix(t, "pub trait "@, "pub struct "@, 4);
        lemma_not_prefix(t, "pub trait "@, "enum "@, 0);
        lemma_not_prefix(t, "pub trait "@, "pub enum "@, 4);
        lemma_not_prefix(t, "pub trait "@, "impl "@, 0);
    }
    lemma_brace_on(Language::Rust, ls, lang, i, CodeKind::Trait, name_after_spec(trim(ls[i]), "trait "@));
}

/// A Rust line that starts with `//` is a one-line comment tile named
/// `comment`, holding the trimmed line.
pub proof fn lemma_rust_comment_line(ls: Seq<Seq<char>>, lang: Language, i: int)
    requires
        0 <= i < ls.len(),
        has_prefix(trim(ls[i]), "//"@),
    ensures
        one_line_tile_on(read(Language::Rust, ls, lang), i, CodeKind::Comment, "comment"@, trim(ls[i])),
{
    reveal_strlit("//");
    reveal_strlit("async fn ");
    reveal_strlit("enum ");
    reveal_strlit("fn ");
    reveal_strlit("impl ");
    reveal_strlit("pub async fn ");
    reveal_strlit("pub enum ");
    reveal_strlit("pub fn ");
    reveal_strlit("pub struct ");
    reveal_strlit("pub trait ");
    reveal_strlit("struct ");
    reveal_strlit("trait ");
    reveal_strlit("use ");
    let t = trim(ls[i]);
        lemma_not_prefix(t, "//"@, "use "@, 0);
        lemma_not_prefix(t, "//"@, "fn "@, 0);
        lemma_not_prefix(t, "//"@, "pub fn "@, 0);
        lemma_not_prefix(t, "//"@, "async fn "@, 0);
        lemma_not_prefix(t, "//"@, "pub async fn "@, 0);
        lemma_not_prefix(t, "//"@, "struct "@, 0);
        lemma_not_prefix(t, "//"@, "pub struct "@, 0);
        lemma_not_prefix(t, "//"@, "enum "@, 0);
        lemma_not_prefix(t, "//"@, "pub enum "@, 0);
        lemma_not_prefix(t, "//"@, "impl "@, 0);
        lemma_not_prefix(t, "//"@, "trait "@, 0);
        lemma_not_prefix(t, "//"@, "pub trait "@, 0);
    lemma_one_line_on(Language::Rust, ls, lang, i, CodeKind::Comment, "comment"@);
}

/// A Rust line that starts with none of `use `, `fn `, `pub fn `, `async fn `,
/// `pub async fn `, `struct `, `pub struct `, `enum `, `pub enum `, `impl `,
/// `trait `, `pub trait ` and `//` starts no tile.
pub proof fn lemma_rust_other_line(ls: Seq<Seq<char>>, lang: Language, i: int)
    requires
        0 <= i < ls.len(),
        !has_prefix(trim(ls[i]), "use "@),
        !has_prefix(trim(ls[i]), "fn "@),
        !has_prefix(trim(ls[i]), "pub fn "@),
        !has_prefix(trim(ls[i]), "async fn "@),
        !has_prefix(trim(ls[i]), "pub async fn "@),
        !has_prefix(trim(ls[i]), "struct "@),
        !has_prefix(trim(ls[i]), "pub struct "@),
        !has_prefix(trim(ls[i]), "enum "@),
        !has_prefix(trim(ls[i]), "pub enum "@),
        !has_prefix(trim(ls[i]), "impl "@),
        !has_prefix(trim(ls[i]), "trait "@),
        !has_prefix(trim(ls[i]), "pub trait "@),
        !has_prefix(trim(ls[i]), "//"@),
    ensures
        no_tile_on(read(Language::Rust, ls, lang), i),
{
    reveal_strlit("//");
    reveal_strlit("async fn ");
    reveal_strlit("enum ");
    reveal_strlit("fn ");
    reveal_strlit("impl ");
    reveal_strlit("pub async fn ");
    reveal_strlit("pub enum ");
    reveal_strlit("pub fn ");
    reveal_strlit("pub struct ");
    reveal_strlit("pub trait ");
    reveal_strlit("struct ");
    reveal_strlit("trait ");
    reveal_strlit("use ");
    let t = trim(ls[i]);
    lemma_none_on(Language::Rust, ls, lang, i);
}

/// A Python line that starts (after trimming) with `#` is a one-line comment
/// tile named `comment`, holding the trimmed line.
pub proof fn lemma_python_comment_line(ls: Seq<Seq<char>>, lang: Language, i: int)
    requires
        0 <= i < ls.len(),
        has_prefix(trim(ls[i]), "#"@),
    ensures
        one_line_tile_on(read(Language::Python, ls, lang), i, CodeKind::Comment, "comment"@, trim(ls[i])),
{
    reveal_strlit("#");
    let t = trim(ls[i]);
    lemma_one_line_on(Language::Python, ls, lang, i, CodeKind::Comment, "comment"@);
}

/// A Python line that starts with `import ` or `from ` is a one-line import
/// tile named by, and holding, the trimmed line.
pub proof fn lemma_python_import_line(ls: Seq<Seq<char>>, lang: Language, i: int)
    requires
        0 <= i < ls.len(),
        has_prefix(trim(ls[i]), "import "@) || has_prefix(trim(ls[i]), "from "@),
    ensures
        one_line_tile_on(read(Language::Python, ls, lang), i, CodeKind::Import, trim(ls[i]), trim(ls[i])),
{
    reveal_strlit("#");
    reveal_strlit("from ");
    reveal_strlit("import ");
    let t = trim(ls[i]);
    if has_prefix(t, "import "@) {
        lemma_not_prefix(t, "import "@, "#"@, 0);
    } else {
        lemma_not_prefix(t, "from "@, "#"@, 0);
    }
    lemma_one_line_on(Language::Python, ls, lang, i, CodeKind::Import, trim(ls[i]));
}

/// A Python line that starts with `def ` or `async def ` opens a function
/// tile over the lines indented under it, named by the word after `def `;
/// it is a test when that name starts with `test_`.
pub proof fn lemma_python_def_line(ls: Seq<Seq<char>>, lang: Language, i: int)
    requires
        0 <= i < ls.len(),
        has_prefix(trim(ls[i]), "def "@) || has_prefix(trim(ls[i]), "async def "@),
    ensures
        indent_tile_on(read(Language::Python, ls, lang), ls, i, (if has_prefix(name_after_spec(trim(ls[i]), "def "@), "test_"@) { CodeKind::Test } else { CodeKind::Function }), name_after_spec(trim(ls[i]), "def "@)),
{
    reveal_strlit("#");
    reveal_strlit("async def ");
    reveal_strlit("def ");
    reveal_strlit("from ");
    reveal_strlit("import ");
    reveal_strlit("test_");
    let t = trim(ls[i]);
    if has_prefix(t, "def "@) {
        lemma_not_prefix(t, "def "@, "#"@, 0);
        lemma_not_prefix(t, "def "@, "import "@, 0);
        lemma_not_prefix(t, "def "@, "from "@, 0);
    } else {
        lemma_not_prefix(t, "async def "@, "#"@, 0);
        lemma_not_prefix(t, "async def "@, "import "@, 0);
        lemma_not_prefix(t, "async def "@, "from "@, 0);
    }
    lemma_indent_on(Language::Python, ls, lang, i, (if has_prefix(name_after_spec(trim(ls[i]), "def "@), "test_"@) { CodeKind::Test } else { CodeKind::Function }), name_after_spec(trim(ls[i]), "def "@));
}

/// A Python line that starts with `class ` opens a class tile over the lines
/// indented under it, named by the word after `class `.
pub proof fn lemma_python_class_line(ls: Seq<Seq<char>>, lang: Language, i: int)
    requires
        0 <= i < ls.len(),
        has_prefix(trim(ls[i]), "class "@),
    ensures
        indent_tile_on(read(Language::Python, ls, lang), ls, i, CodeKind::Class, name_after_spec(trim(ls[i]), "class "@)),
{
    reveal_strlit("#");
    reveal_strlit("async def ");
    reveal_strlit("class ");
    reveal_strlit("def ");
    reveal_strlit("from ");
    reveal_strlit("import ");
    let t = trim(ls[i]);
        lemma_not_prefix(t, "class "@, "#"@, 0);
        lemma_not_prefix(t, "class "@, "import "@, 0);
        lemma_not_prefix(t, "class "@, "from "@, 0);
        lemma_not_prefix(t, "class "@, "def "@, 0);
        lemma_not_prefix(t, "class "@, "async def "@, 0);
    lemma_indent_on(Language::Python, ls, lang, i, CodeKind::Class, name_after_spec(trim(ls[i]), "class "@));
}

/// A Python line that starts with none of `#`, `import `, `from `, `def `,
/// `async def ` and `class ` starts no tile.
pub proof fn lemma_python_other_line(ls: Seq<Seq<char>>, lang: Language, i: int)
    requires
        0 <= i < ls.len(),
        !has_prefix(trim(ls[i]), "#"@),
        !has_prefix(trim(ls[i]), "import "@),
        !has_prefix(trim(ls[i]), "from "@),
        !has_prefix(trim(ls[i]), "def "@),
        !has_prefix(trim(ls[i]), "async def "@),
        !has_prefix(trim(ls[i]), "class "@),
    ensures
        no_tile_on(read(Language::Python, ls, lang), i),
{
    reveal_strlit("#");
    reveal_strlit("async def ");
    reveal_strlit("class ");
    reveal_strlit("def ");
    reveal_strlit("from ");
    reveal_strlit("import ");
    let t = trim(ls[i]);
    lemma_none_on(Language::Python, ls, lang, i);
}

/// A TypeScript or JavaScript line that starts (after trimming) with
/// `import ` is a one-line import tile named by, and holding, the trimmed
/// line.
pub proof fn lemma_ts_import_line(ls: Seq<Seq<char>>, lang: Language, i: int)
    requires
        0 <= i < ls.len(),
        has_prefix(trim(ls[i]), "import "@),
    ensures
        one_line_tile_on(read(Language::TypeScript, ls, lang), i, CodeKind::Import, trim(ls[i]), trim(ls[i])),
{
    reveal_strlit("import ");
    let t = trim(ls[i]);
    lemma_one_line_on(Language::TypeScript, ls, lang, i, CodeKind::Import, trim(ls[i]));
}

/// A TypeScript or JavaScript line that starts with `//` is a one-line
/// comment tile named `comment`, holding the trimmed line.
pub proof fn lemma_ts_comment_line(ls: Seq<Seq<char>>, lang: Language, i: int)
    requires
        0 <= i < ls.len(),
        has_prefix(trim(ls[i]), "//"@),
    ensures
        one_line_tile_on(read(Language::TypeScript, ls, lang), i, CodeKind::Comment, "comment"@, trim(ls[i])),
{
    reveal_strlit("//");
    reveal_strlit("import ");
    let t = trim(ls[i]);
        lemma_not_prefix(t, "//"@, "import "@, 0);
    lemma_one_line_on(Language::TypeScript, ls, lang, i, CodeKind::Comment, "comment"@);
}

/// A TypeScript or JavaScript line that holds `function ` anywhere, and is
/// no import or `//` comment, opens a function tile over its brace block,
/// named by the word after the first `function `.
pub proof fn lemma_ts_function_line(ls: Seq<Seq<char>>, lang: Language, i: int)
    requires
        0 <= i < ls.len(),
        has_sub(trim(ls[i]), "function "@),
        !has_prefix(trim(ls[i]), "import "@),
        !has_prefix(trim(ls[i]), "//"@),
    ensures
        brace_tile_on(read(Language::TypeScript, ls, lang), ls, i, CodeKind::Function, name_after_spec(trim(ls[i]), "function "@)),
{
    let t = trim(ls[i]);
    lemma_brace_on(Language::TypeScript, ls, lang, i, CodeKind::Function, name_after_spec(trim(ls[i]), "function "@));
}

/// A TypeScript or JavaScript line that starts with `class `, and holds no
/// `function `, opens a class tile over its brace block, named by the word
/// after `class `.
pub proof fn lemma_ts_class_line(ls: Seq<Seq<char>>, lang: Language, i: int)
    requires
        0 <= i < ls.len(),
        has_prefix(trim(ls[i]), "class "@),
        !has_sub(trim(ls[i]), "function "@),
    ensures
        brace_tile_on(read(Language::TypeScript, ls, lang), ls, i, CodeKind::Class, name_after_spec(trim(ls[i]), "class "@)),
{
    reveal_strlit("//");
    reveal_strlit("class ");
    reveal_strlit("import ");
    let t = trim(ls[i]);
        lemma_not_prefix(t, "class "@, "import "@, 0);
        lemma_not_prefix(t, "class "@, "//"@, 0);
    lemma_brace_on(Language::TypeScript, ls, lang, i, CodeKind::Class, name_after_spec(trim(ls[i]), "class "@));
}

/// A TypeScript or JavaScript line that starts with `interface `, and holds
/// no `function `, opens a struct tile over its brace block, named by the
/// word after `interface `.
pub proof fn lemma_ts_interface_line(ls: Seq<Seq<char>>, lang: Language, i: int)
    requires
        0 <= i < ls.len(),
        has_prefix(trim(ls[i]), "interface "@),
        !has_sub(trim(ls[i]), "function "@),
    ensures
        brace_tile_on(read(Language::TypeScript, ls, lang), ls, i, CodeKind::Struct, name_after_spec(trim(ls[i]), "interface "@)),
{
    reveal_strlit("//");
    reveal_strlit("class ");
    reveal_strlit("import ");
    reveal_strlit("interface ");
    let t = trim(ls[i]);
        lemma_not_prefix(t, "interface "@, "import "@, 1);
        lemma_not_prefix(t, "interface "@, "//"@, 0);
        lemma_not_prefix(t, "interface "@, "class "@, 0);
    lemma_brace_on(Language::TypeScript, ls, lang, i, CodeKind::Struct, name_after_spec(trim(ls[i]), "interface "@));
}

/// A TypeScript or JavaScript line that starts with `type `, and holds no
/// `function `, opens a struct tile over its brace block, named by the word
/// after `type `.
pub proof fn lemma_ts_type_line(ls: Seq<Seq<char>>, lang: Language, i: int)
    requires
        0 <= i < ls.len(),
        has_prefix(trim(ls[i]), "type "@),
        !has_sub(trim(ls[i]), "function "@),
    ensures
        brace_tile_on(read(Language::TypeScript, ls, lang), ls, i, CodeKind::Struct, name_after_spec(trim(ls[i]), "type "@)),
{
    reveal_strlit("//");
    reveal_strlit("class ");
    reveal_strlit("import ");
    reveal_strlit("interface ");
    reveal_strlit("type ");
    let t = trim(ls[i]);
        lemma_not_prefix(t, "type "@, "import "@, 0);
        lemma_not_prefix(t, "type "@, "//"@, 0);
        lemma_not_prefix(t, "type "@, "class "@, 0);
        lemma_not_prefix(t, "type "@, "interface "@, 0);
    lemma_brace_on(Language::TypeScript, ls, lang, i, CodeKind::Struct, name_after_spec(trim(ls[i]), "type "@));
}

/// A TypeScript or JavaScript line that holds no `function ` and starts with
/// none of `import `, `//`, `class `, `interface ` and `type ` starts no tile.
pub proof fn lemma_ts_other_line(ls: Seq<Seq<char>>, lang: Language, i: int)
    requires
        0 <= i < ls.len(),
        !has_prefix(trim(ls[i]), "import "@),
        !has_prefix(trim(ls[i]), "//"@),
        !has_prefix(trim(ls[i]), "class "@),
        !has_prefix(trim(ls[i]), "interface "@),
        !has_prefix(trim(ls[i]), "type "@),
        !has_sub(trim(ls[i]), "function "@),
    ensures
        no_tile_on(read(Language::TypeScript, ls, lang), i),
{
    reveal_strlit("//");
    reveal_strlit("class ");
    reveal_strlit("function ");
    reveal_strlit("import ");
    reveal_strlit("interface ");
    reveal_strlit("type ");
    let t = trim(ls[i]);
    lemma_none_on(Language::TypeScript, ls, lang, i);
}

/// A Go line that starts (after trimming) with `//` is a one-line comment
/// tile named `comment`, holding the trimmed line.
pub proof fn lemma_go_comment_line(ls: Seq<Seq<char>>, lang: Language, i: int)
    requires
        0 <= i < ls.len(),
        has_prefix(trim(ls[i]), "//"@),
    ensures
        one_line_tile_on(read(Language::Go, ls, lang), i, CodeKind::Comment, "comment"@, trim(ls[i])),
{
    reveal_strlit("//");
    let t = trim(ls[i]);
    lemma_one_line_on(Language::Go, ls, lang, i, CodeKind::Comment, "comment"@);
}

/// A Go line that starts with `import ` or `package ` is a one-line import
/// tile named by, and holding, the trimmed line.
pub proof fn lemma_go_import_line(ls: Seq<Seq<char>>, lang: Language, i: int)
    requires
        0 <= i < ls.len(),
        has_prefix(trim(ls[i]), "import "@) || has_prefix(trim(ls[i]), "package "@),
    ensures
        one_line_tile_on(read(Language::Go, ls, lang), i, CodeKind::Import, trim(ls[i]), trim(ls[i])),
{
    reveal_strlit("//");
    reveal_strlit("import ");
    reveal_strlit("package ");
    let t = trim(ls[i]);
    if has_prefix(t, "import "@) {
        lemma_not_prefix(t, "import "@, "//"@, 0);
    } else {
        lemma_not_prefix(t, "package "@, "//"@, 0);
    }
    lemma_one_line_on(Language::Go, ls, lang, i, CodeKind::Import, trim(ls[i]));
}

/// A Go line that starts with `func ` opens a function tile over its brace
/// block, named by the word after `func `.
pub proof fn lemma_go_func_line(ls: Seq<Seq<char>>, lang: Language, i: int)
    requires
        0 <= i < ls.len(),
        has_prefix(trim(ls[i]), "func "@),
    ensures
        brace_tile_on(read(Language::Go, ls, lang), ls, i, CodeKind::Function, name_after_spec(trim(ls[i]), "func "@)),
{
    reveal_strlit("//");
    reveal_strlit("func ");
    reveal_strlit("import ");
    reveal_strlit("package ");
    let t = trim(ls[i]);
        lemma_not_prefix(t, "func "@, "//"@, 0);
        lemma_not_prefix(t, "func "@, "import "@, 0);
        lemma_not_prefix(t, "func "@, "package "@, 0);
    lemma_brace_on(Language::Go, ls, lang, i, CodeKind::Function, name_after_spec(trim(ls[i]), "func "@));
}

/// A Go line that starts with `type ` and holds `struct` opens a struct tile
/// over its brace block, named by the word after `type `.
pub proof fn lemma_go_struct_line(ls: Seq<Seq<char>>, lang: Language, i: int)
    requires
        0 <= i < ls.len(),
        has_prefix(trim(ls[i]), "type "@),
        has_sub(trim(ls[i]), "struct"@),
    ensures
        brace_tile_on(read(Language::Go, ls, lang), ls, i, CodeKind::Struct, name_after_spec(trim(ls[i]), "type "@)),
{
    reveal_strlit("//");
    reveal_strlit("func ");
    reveal_strlit("import ");
    reveal_strlit("package ");
    reveal_strlit("type ");
    let t = trim(ls[i]);
        lemma_not_prefix(t, "type "@, "//"@, 0);
        lemma_not_prefix(t, "type "@, "import "@, 0);
        lemma_not_prefix(t, "type "@, "package "@, 0);
        lemma_not_prefix(t, "type "@, "func "@, 0);
    lemma_brace_on(Language::Go, ls, lang, i, CodeKind::Struct, name_after_spec(trim(ls[i]), "type "@));
}

/// A Go line that starts with none of `//`, `import `, `package ` and
/// `func `, and is no `type ` line with `struct`, starts no tile.
pub proof fn lemma_go_other_line(ls: Seq<Seq<char>>, lang: Language, i: int)
    requires
        0 <= i < ls.len(),
        !has_prefix(trim(ls[i]), "//"@),
        !has_prefix(trim(ls[i]), "import "@),
        !has_prefix(trim(ls[i]), "package "@),
        !has_prefix(trim(ls[i]), "func "@),
        !(has_prefix(trim(ls[i]), "type "@) && has_sub(trim(ls[i]), "struct"@)),
    ensures
        no_tile_on(read(Language::Go, ls, lang), i),
{
    reveal_strlit("//");
    reveal_strlit("func ");
    reveal_strlit("import ");
    reveal_strlit("package ");
    reveal_strlit("struct");
    reveal_strlit("type ");
    let t = trim(ls[i]);
    lemma_none_on(Language::Go, ls, lang, i);
}

/// A C line that starts (after trimming) with `//` or `/*` is a one-line
/// comment tile named `comment`, holding the trimmed line.
pub proof fn lemma_c_comment_line(ls: Seq<Seq<char>>, lang: Language, i: int)
    requires
        0 <= i < ls.len(),
        has_prefix(trim(ls[i]), "//"@) || has_prefix(trim(ls[i]), "/*"@),
    ensures
        one_line_tile_on(read(Language::C, ls, lang), i, CodeKind::Comment, "comment"@, trim(ls[i])),
{
    reveal_strlit("/*");
    reveal_strlit("//");
    let t = trim(ls[i]);
    if has_prefix(t, "//"@) {
    } else {
    }
    lemma_one_line_on(Language::C, ls, lang, i, CodeKind::Comment, "comment"@);
}

/// A C line that starts with `#include` is a one-line import tile named by,
/// and holding, the trimmed line.
pub proof fn lemma_c_include_line(ls: Seq<Seq<char>>, lang: Language, i: int)
    requires
        0 <= i < ls.len(),
        has_prefix(trim(ls[i]), "#include"@),
    ensures
        one_line_tile_on(read(Language::C, ls, lang), i, CodeKind::Import, trim(ls[i]), trim(ls[i])),
{
    reveal_strlit("#include");
    reveal_strlit("/*");
    reveal_strlit("//");
    let t = trim(ls[i]);
        lemma_not_prefix(t, "#include"@, "//"@, 0);
        lemma_not_prefix(t, "#include"@, "/*"@, 0);
    lemma_one_line_on(Language::C, ls, lang, i, CodeKind::Import, trim(ls[i]));
}

proof fn lemma_trim_end_len(s: Seq<char>)
    ensures
        trim_end(s).len() <= s.len(),
    decreases s.len(),
{
    if s.len() > 0 && is_ws(s.last()) {
        lemma_trim_end_len(s.drop_last());
    }
}

proof fn lemma_join_first_len(xs: Seq<Seq<char>>)
    requires
        xs.len() >= 1,
    ensures
        join_lines(xs).len() >= xs[0].len(),
    decreases xs.len(),
{
    if xs.len() > 1 {
        lemma_join_first_len(xs.drop_last());
    }
}

/// A line holding `{` starts a brace block whose text is not empty.
proof fn lemma_brace_body_nonempty(ls: Seq<Seq<char>>, i: int)
    requires
        0 <= i < ls.len(),
        has_sub(trim(ls[i]), "{"@),
    ensures
        brace_extent(ls, i).0.len() > 0,
{
    reveal_strlit("{");
    let t = trim(ls[i]);
    lemma_first_match_matches(t, "{"@, 0);
    lemma_trim_end_len(ls[i].skip(lead_ws(ls[i]) as int));
    lemma_brace_extent_range(ls, i);
    let e = brace_extent(ls, i).1;
    match brace_end(ls, i) {
        BlockEnd::Closed(c) => lemma_join_first_len(ls.subrange(i, c + 1)),
        _ => lemma_join_first_len(ls.subrange(i, ls.len() as int)),
    }
}

/// A C line that holds `(`, `)` and `{`, starts with none of `if`, `for`,
/// `while` and `return`, and is no comment or `#include`, opens a function
/// tile over its brace block, named by what precedes its first `(`, trimmed.
pub proof fn lemma_c_function_line(ls: Seq<Seq<char>>, lang: Language, i: int)
    requires
        0 <= i < ls.len(),
        has_sub(trim(ls[i]), "("@),
        has_sub(trim(ls[i]), ")"@),
        has_sub(trim(ls[i]), "{"@),
        !has_prefix(trim(ls[i]), "if"@),
        !has_prefix(trim(ls[i]), "for"@),
        !has_prefix(trim(ls[i]), "while"@),
        !has_prefix(trim(ls[i]), "return"@),
        !has_prefix(trim(ls[i]), "//"@),
        !has_prefix(trim(ls[i]), "/*"@),
        !has_prefix(trim(ls[i]), "#include"@),
    ensures
        brace_tile_on(read(Language::C, ls, lang), ls, i, CodeKind::Function, trim(first_piece(trim(ls[i]), Stop::OpenParen))),
{
    lemma_brace_body_nonempty(ls, i);
    lemma_brace_on(Language::C, ls, lang, i, CodeKind::Function, trim(first_piece(trim(ls[i]), Stop::OpenParen)));
}

/// A C line that is no comment, no `#include` and no function header (a line
/// with `(`, `)` and `{` that starts with none of `if`, `for`, `while` and
/// `return`) starts no tile.
pub proof fn lemma_c_other_line(ls: Seq<Seq<char>>, lang: Language, i: int)
    requires
        0 <= i < ls.len(),
        !has_prefix(trim(ls[i]), "//"@),
        !has_prefix(trim(ls[i]), "/*"@),
        !has_prefix(trim(ls[i]), "#include"@),
        !(has_sub(trim(ls[i]), "("@) && has_sub(trim(ls[i]), ")"@) && has_sub(trim(ls[i]), "{"@)
            && !has_prefix(trim(ls[i]), "if"@) && !has_prefix(trim(ls[i]), "for"@) && !has_prefix(
            trim(ls[i]),
            "while"@,
        ) && !has_prefix(trim(ls[i]), "return"@)),
    ensures
        no_tile_on(read(Language::C, ls, lang), i),
{
    lemma_none_on(Language::C, ls, lang, i);
}

/// A Java line that starts (after trimming) with `//` or `/*` is a one-line
/// comment tile named `comment`, holding the trimmed line.
pub proof fn lemma_java_comment_line(ls: Seq<Seq<char>>, lang: Language, i: int)
    requires
        0 <= i < ls.len(),
        has_prefix(trim(ls[i]), "//"@) || has_prefix(trim(ls[i]), "/*"@),
    ensures
        one_line_tile_on(read(Language::Java, ls, lang), i, CodeKind::Comment, "comment"@, trim(ls[i])),
{
    lemma_one_line_on(Language::Java, ls, lang, i, CodeKind::Comment, "comment"@);
}

/// A Java line that starts with `import ` or `package ` is a one-line import
/// tile named by, and holding, the trimmed line.
pub proof fn lemma_java_import_line(ls: Seq<Seq<char>>, lang: Language, i: int)
    requires
        0 <= i < ls.len(),
        has_prefix(trim(ls[i]), "import "@) || has_prefix(trim(ls[i]), "package "@),
    ensures
        one_line_tile_on(read(Language::Java, ls, lang), i, CodeKind::Import, trim(ls[i]), trim(ls[i])),
{
    reveal_strlit("import ");
    reveal_strlit("package ");
    reveal_strlit("//");
    reveal_strlit("/*");
    let t = trim(ls[i]);
    if has_prefix(t, "import "@) {
        lemma_not_prefix(t, "import "@, "//"@, 0);
        lemma_not_prefix(t, "import "@, "/*"@, 0);
    } else {
        lemma_not_prefix(t, "package "@, "//"@, 0);
        lemma_not_prefix(t, "package "@, "/*"@, 0);
    }
    lemma_one_line_on(Language::Java, ls, lang, i, CodeKind::Import, t);
}

/// A Java line that holds `class `, does not start with `if`, and is no
/// comment, import or package line, opens a class tile over its brace block,
/// named by the word after the first `class `.
pub proof fn lemma_java_class_line(ls: Seq<Seq<char>>, lang: Language, i: int)
    requires
        0 <= i < ls.len(),
        has_sub(trim(ls[i]), "class "@),
        !has_prefix(trim(ls[i]), "if"@),
        !has_prefix(trim(ls[i]), "//"@),
        !has_prefix(trim(ls[i]), "/*"@),
        !has_prefix(trim(ls[i]), "import "@),
        !has_prefix(trim(ls[i]), "package "@),
    ensures
        brace_tile_on(read(Language::Java, ls, lang), ls, i, CodeKind::Class, name_after_spec(trim(ls[i]), "class "@)),
{
    lemma_brace_on(Language::Java, ls, lang, i, CodeKind::Class, name_after_spec(trim(ls[i]), "class "@));
}

/// A Java line that holds `void ` or `static `, `(` and `{`, holds no
/// `class `, starts with none of `if`, `for` and `while`, and is no comment,
/// import or package line, opens a method tile over its brace block, named
/// by the last space-separated word before its first `(`.
pub proof fn lemma_java_method_line(ls: Seq<Seq<char>>, lang: Language, i: int)
    requires
        0 <= i < ls.len(),
        has_sub(trim(ls[i]), "void "@) || has_sub(trim(ls[i]), "static "@),
        has_sub(trim(ls[i]), "("@),
        has_sub(trim(ls[i]), "{"@),
        !has_sub(trim(ls[i]), "class "@),
        !has_prefix(trim(ls[i]), "if"@),
        !has_prefix(trim(ls[i]), "for"@),
        !has_prefix(trim(ls[i]), "while"@),
        !has_prefix(trim(ls[i]), "//"@),
        !has_prefix(trim(ls[i]), "/*"@),
        !has_prefix(trim(ls[i]), "import "@),
        !has_prefix(trim(ls[i]), "package "@),
    ensures
        brace_tile_on(
            read(Language::Java, ls, lang),
            ls,
            i,
            CodeKind::Method,
            after_last(trim(first_piece(trim(ls[i]), Stop::OpenParen)), ' '),
        ),
{
    lemma_brace_body_nonempty(ls, i);
    lemma_brace_on(Language::Java, ls, lang, i, CodeKind::Method, after_last(trim(first_piece(trim(ls[i]), Stop::OpenParen)), ' '));
}

/// A Java line that is no comment, import or package line, no class line
/// (one with `class ` that does not start with `if`) and no method line (one
/// with `void ` or `static `, `(` and `{` that starts with none of `if`,
/// `for` and `while`) starts no tile.
pub proof fn lemma_java_other_line(ls: Seq<Seq<char>>, lang: Language, i: int)
    requires
        0 <= i < ls.len(),
        !has_prefix(trim(ls[i]), "//"@),
        !has_prefix(trim(ls[i]), "/*"@),
        !has_prefix(trim(ls[i]), "import "@),
        !has_prefix(trim(ls[i]), "package "@),
        !(has_sub(trim(ls[i]), "class "@) && !has_prefix(trim(ls[i]), "if"@)),
        !((has_sub(trim(ls[i]), "void "@) || has_sub(trim(ls[i]), "static "@)) && has_sub(
            trim(ls[i]),
            "("@,
        ) && has_sub(trim(ls[i]), "{"@) && !has_prefix(trim(ls[i]), "if"@) && !has_prefix(
            trim(ls[i]),
            "for"@,
        ) && !has_prefix(trim(ls[i]), "while"@)),
    ensures
        no_tile_on(read(Language::Java, ls, lang), i),
{
    lemma_none_on(Language::Java, ls, lang, i);
}

/// The extensions that name a language.
pub open spec fn known_extension(e: Seq<char>) -> bool {
    e == "rs"@ || e == "py"@ || e == "ts"@ || e == "js"@ || e == "go"@ || e == "c"@ || e == "h"@
        || e == "java"@
}

/// A file name's extension (what follows its last `.`, or all of it) decides
/// the language: `rs` Rust, `py` Python, `ts` TypeScript, `js` JavaScript,
/// `go` Go, `c` and `h` C, `java` Java, whatever the text.
pub proof fn lemma_detect_by_extension(input: Seq<char>, name: Seq<char>)
    ensures
        after_last(name, '.') == "rs"@ ==> detected_language(input, Some(name)) == Language::Rust,
        after_last(name, '.') == "py"@ ==> detected_language(input, Some(name)) == Language::Python,
        after_last(name, '.') == "ts"@ ==> detected_language(input, Some(name)) == Language::TypeScript,
        after_last(name, '.') == "js"@ ==> detected_language(input, Some(name)) == Language::JavaScript,
        after_last(name, '.') == "go"@ ==> detected_language(input, Some(name)) == Language::Go,
        after_last(name, '.') == "c"@ ==> detected_language(input, Some(name)) == Language::C,
        after_last(name, '.') == "h"@ ==> detected_language(input, Some(name)) == Language::C,
        after_last(name, '.') == "java"@ ==> detected_language(input, Some(name)) == Language::Java,
{
    reveal_strlit("rs");
    reveal_strlit("py");
    reveal_strlit("ts");
    reveal_strlit("js");
    reveal_strlit("go");
    reveal_strlit("c");
    reveal_strlit("h");
    reveal_strlit("java");
    assert("rs"@[0] == 'r' && "py"@[0] == 'p' && "ts"@[0] == 't' && "js"@[0] == 'j' && "go"@[0] == 'g');
    let e = after_last(name, '.');
    if e == "py"@ || e == "ts"@ || e == "js"@ || e == "go"@ {
        assert(e[0] != 'r');
    }
    if e == "ts"@ || e == "js"@ || e == "go"@ {
        assert(e[0] != 'p');
    }
    if e == "js"@ || e == "go"@ {
        assert(e[0] != 't');
    }
    if e == "go"@ {
        assert(e[0] != 'j');
    }
    if e == "java"@ {
        assert(e.len() == 4 && e[0] == 'j');
        assert(e != "rs"@ && e != "py"@ && e != "ts"@ && e != "js"@ && e != "go"@ && e != "c"@ && e != "h"@);
    }
}

/// Without a file name whose extension names a language, the text decides:
/// Rust when it holds `fn ` and `let mut`; else Python when it holds `def `
/// and `import `, in either order; else Go when it holds `func ` and
/// `package `; else the language is unknown.
pub proof fn lemma_detect_by_content(input: Seq<char>, filename: Option<Seq<char>>)
    requires
        filename matches Some(n) ==> !known_extension(after_last(n, '.')),
    ensures
        has_sub(input, "fn "@) && has_sub(input, "let mut"@) ==> detected_language(input, filename)
            == Language::Rust,
        !(has_sub(input, "fn "@) && has_sub(input, "let mut"@)) && has_sub(input, "def "@) && has_sub(
            input,
            "import "@,
        ) ==> detected_language(input, filename) == Language::Python,
        !(has_sub(input, "fn "@) && has_sub(input, "let mut"@)) && !(has_sub(input, "def "@) && has_sub(
            input,
            "import "@,
        )) && has_sub(input, "func "@) && has_sub(input, "package "@) ==> detected_language(
            input,
            filename,
        ) == Language::Go,
        !(has_sub(input, "fn "@) && has_sub(input, "let mut"@)) && !(has_sub(input, "def "@) && has_sub(
            input,
            "import "@,
        )) && !(has_sub(input, "func "@) && has_sub(input, "package "@)) ==> detected_language(
            input,
            filename,
        ) == Language::Unknown,
{
}

/// Line `i` is the first of a run of non-blank lines.
pub open spec fn starts_block(ls: Seq<Seq<char>>, i: int) -> bool {
    0 <= i < ls.len() && !is_blank(ls[i]) && (i == 0 || is_blank(ls[i - 1]))
}

/// `t` is the block of non-blank lines that starts on line `i` (0-based): it
/// runs up to the next blank line, or to the end of the text; it is named by
/// the first word of its first line (up to whitespace or `(`), or `final`
/// when no blank line follows it; and it holds its lines joined with
/// newlines.
pub open spec fn is_block_from(t: TileModel, ls: Seq<Seq<char>>, i: int, lang: Language) -> bool {
    exists|e: int|
        #![trigger ls.subrange(i, e)]
        i < e <= ls.len() && (forall|k: int| i <= k < e ==> !is_blank(#[trigger] ls[k])) && (e < ls.len()
            ==> is_blank(ls[e])) && t == (TileModel {
            kind: CodeKind::Block,
            name: if e < ls.len() {
                first_piece(trim(ls[i]), Stop::WordEnd)
            } else {
                "final"@
            },
            body: join_lines(ls.subrange(i, e)),
            start_line: i + 1,
            end_line: e,
            language: lang,
        })
}

proof fn lemma_generic_blocks_from(ls: Seq<Seq<char>>, k: int, start: int, open: bool, lang: Language)
    requires
        0 <= k <= ls.len(),
        open ==> 0 <= start < k && starts_block(ls, start) && forall|m: int|
            start <= m < k ==> !is_blank(#[trigger] ls[m]),
        !open ==> (k == 0 || is_blank(ls[k - 1])),
    ensures
        forall|i: int|
            #[trigger] starts_block(ls, i) && (i >= k || (open && i == start)) ==> exists|j: int|
                0 <= j < generic_tiles(ls, k, start, open, lang).len() && is_block_from(
                    #[trigger] generic_tiles(ls, k, start, open, lang)[j],
                    ls,
                    i,
                    lang,
                ),
        forall|j: int|
            0 <= j < generic_tiles(ls, k, start, open, lang).len() ==> ({
                let t = #[trigger] generic_tiles(ls, k, start, open, lang)[j];
                let i = t.start_line - 1;
                starts_block(ls, i) && (i >= k || (open && i == start)) && is_block_from(t, ls, i, lang)
            }),
    decreases ls.len() - k,
{
    let g = generic_tiles(ls, k, start, open, lang);
    if k >= ls.len() {
        if open {
            let t = g[0];
            assert(ls.subrange(start, ls.len() as int) == ls.subrange(start, ls.len() as int));
            assert(is_block_from(t, ls, start, lang));
        }
    } else if is_blank(ls[k]) {
        lemma_generic_blocks_from(ls, k + 1, start, false, lang);
        let g2 = generic_tiles(ls, k + 1, start, false, lang);
        if open {
            assert(g == seq![block_tile(ls, start, k, lang)] + g2);
            assert(ls.subrange(start, k) == ls.subrange(start, k));
            assert(is_block_from(g[0], ls, start, lang));
            assert forall|i: int| #[trigger] starts_block(ls, i) && (i >= k || (open && i == start)) implies exists|j: int|
                0 <= j < g.len() && is_block_from(#[trigger] g[j], ls, i, lang) by {
                if i == start {
                    assert(is_block_from(g[0], ls, i, lang));
                } else {
                    let j2 = choose|j2: int| 0 <= j2 < g2.len() && is_block_from(#[trigger] g2[j2], ls, i, lang);
                    assert(g[j2 + 1] == g2[j2]);
                }
            }
            assert forall|j: int| 0 <= j < g.len() implies ({
                let t = #[trigger] g[j];
                let i = t.start_line - 1;
                starts_block(ls, i) && (i >= k || (open && i == start)) && is_block_from(t, ls, i, lang)
            }) by {
                if j > 0 {
                    assert(g[j] == g2[j - 1]);
                }
            }
        }
    } else if open {
        lemma_generic_blocks_from(ls, k + 1, start, true, lang);
    } else {
        lemma_generic_blocks_from(ls, k + 1, k, true, lang);
    }
}

/// The reader for text of unknown language makes one block of each run of
/// non-blank lines, and nothing else: each run's first line starts a tile
/// that is that block, and every tile is the block of the run it starts.
pub proof fn lemma_generic_blocks(ls: Seq<Seq<char>>, lang: Language)
    ensures
        forall|i: int|
            #[trigger] starts_block(ls, i) ==> exists|j: int|
                0 <= j < generic_tiles(ls, 0, 0, false, lang).len() && is_block_from(
                    #[trigger] generic_tiles(ls, 0, 0, false, lang)[j],
                    ls,
                    i,
                    lang,
                ),
        forall|j: int|
            0 <= j < generic_tiles(ls, 0, 0, false, lang).len() ==> starts_block(
                ls,
                (#[trigger] generic_tiles(ls, 0, 0, false, lang)[j]).start_line - 1,
            ) && is_block_from(
                generic_tiles(ls, 0, 0, false, lang)[j],
                ls,
                generic_tiles(ls, 0, 0, false, lang)[j].start_line - 1,
                lang,
            ),
{
    lemma_generic_blocks_from(ls, 0, 0, false, lang);
}

/// A decomposer reads a text with the reader of its own language, and the
/// tiles carry that language: Rust, Python, Go, C and Java each with their
/// own reader, TypeScript and JavaScript both with the TypeScript reader,
/// and text of unknown language cut into blocks of non-blank lines.
pub proof fn lemma_decompose_dispatch(lang: Language, ls: Seq<Seq<char>>)
    ensures
        lang == Language::Rust ==> decomposition(lang, ls) == read(Language::Rust, ls, lang),
        lang == Language::Python ==> decomposition(lang, ls) == read(Language::Python, ls, lang),
        lang == Language::TypeScript ==> decomposition(lang, ls) == read(Language::TypeScript, ls, lang),
        lang == Language::JavaScript ==> decomposition(lang, ls) == read(Language::TypeScript, ls, lang),
        lang == Language::Go ==> decomposition(lang, ls) == read(Language::Go, ls, lang),
        lang == Language::C ==> decomposition(lang, ls) == read(Language::C, ls, lang),
        lang == Language::Java ==> decomposition(lang, ls) == read(Language::Java, ls, lang),
        lang == Language::Unknown ==> decomposition(lang, ls) == generic_tiles(ls, 0, 0, false, lang),
{
}

} // verus!

//! What each reader produces, stated as mathematical functions of the
//! lines of the text: the tile each line opens, the blocks of text of
//! unknown language, and the language a text is detected as.

use vstd::prelude::*;

use crate::blocks::{after_last, brace_end, brace_extent, first_piece, indent_extent, name_after_spec, Stop};
use crate::text::{has_prefix, has_sub, is_blank, join_lines, trim};
use crate::tile::{CodeKind, CodeTile, Language, TileModel};

verus! {

/// A tile that covers the single line `i` (0-based).
pub open spec fn one_line(
    kind: CodeKind,
    name: Seq<char>,
    body: Seq<char>,
    i: int,
    lang: Language,
) -> TileModel {
    TileModel { kind, name, body, start_line: i + 1, end_line: i + 1, language: lang }
}

/// A tile for the brace block that starts on line `i`.
pub open spec fn braced(
    kind: CodeKind,
    name: Seq<char>,
    ls: Seq<Seq<char>>,
    i: int,
    lang: Language,
) -> TileModel {
    let (body, end) = brace_extent(ls, i);
    TileModel { kind, name, body, start_line: i + 1, end_line: end + 1, language: lang }
}

/// A tile for the indented block whose header is line `i`.
pub open spec fn indented(
    kind: CodeKind,
    name: Seq<char>,
    ls: Seq<Seq<char>>,
    i: int,
    lang: Language,
) -> TileModel {
    let (body, end) = indent_extent(ls, i);
    TileModel { kind, name, body, start_line: i + 1, end_line: end + 1, language: lang }
}

/// Functions whose name starts with `test_` are tests.
pub open spec fn fn_kind(name: Seq<char>) -> CodeKind {
    if has_prefix(name, "test_"@) {
        CodeKind::Test
    } else {
        CodeKind::Function
    }
}

/// A trimmed Rust line that opens a function.
pub open spec fn rust_fn_line(t: Seq<char>) -> bool {
    has_prefix(t, "fn "@) || has_prefix(t, "pub fn "@) || has_prefix(t, "async fn "@)
        || has_prefix(t, "pub async fn "@)
}

/// The tile that Rust line `i` opens, if any.
pub open spec fn rust_tile(ls: Seq<Seq<char>>, i: int, lang: Language) -> Option<TileModel> {
    let t = trim(ls[i]);
    if has_prefix(t, "use "@) {
        Some(one_line(CodeKind::Import, t, t, i, lang))
    } else if rust_fn_line(t) {
        let name = name_after_spec(t, "fn "@);
        Some(braced(fn_kind(name), name, ls, i, lang))
    } else if has_prefix(t, "struct "@) || has_prefix(t, "pub struct "@) {
        Some(braced(CodeKind::Struct, name_after_spec(t, "struct "@), ls, i, lang))
    } else if has_prefix(t, "enum "@) || has_prefix(t, "pub enum "@) {
        Some(braced(CodeKind::Enum, name_after_spec(t, "enum "@), ls, i, lang))
    } else if has_prefix(t, "impl "@) {
        Some(braced(CodeKind::Impl, name_after_spec(t, "impl "@), ls, i, lang))
    } else if has_prefix(t, "trait "@) || has_prefix(t, "pub trait "@) {
        Some(braced(CodeKind::Trait, name_after_spec(t, "trait "@), ls, i, lang))
    } else if has_prefix(t, "//"@) {
        Some(one_line(CodeKind::Comment, "comment"@, t, i, lang))
    } else {
        None
    }
}

/// Rust line `i` starts a brace block.
pub open spec fn rust_reads_braces(ls: Seq<Seq<char>>, i: int) -> bool {
    let t = trim(ls[i]);
    !has_prefix(t, "use "@) && (rust_fn_line(t) || has_prefix(t, "struct "@) || has_prefix(
        t,
        "pub struct "@,
    ) || has_prefix(t, "enum "@) || has_prefix(t, "pub enum "@) || has_prefix(t, "impl "@)
        || has_prefix(t, "trait "@) || has_prefix(t, "pub trait "@))
}


/// The tile that Python line `i` opens, if any.
pub open spec fn python_tile(ls: Seq<Seq<char>>, i: int, lang: Language) -> Option<TileModel> {
    let t = trim(ls[i]);
    if has_prefix(t, "#"@) {
        Some(one_line(CodeKind::Comment, "comment"@, t, i, lang))
    } else if has_prefix(t, "import "@) || has_prefix(t, "from "@) {
        Some(one_line(CodeKind::Import, t, t, i, lang))
    } else if has_prefix(t, "def "@) || has_prefix(t, "async def "@) {
        let name = name_after_spec(t, "def "@);
        Some(indented(fn_kind(name), name, ls, i, lang))
    } else if has_prefix(t, "class "@) {
        Some(indented(CodeKind::Class, name_after_spec(t, "class "@), ls, i, lang))
    } else {
        None
    }
}

/// The tile that TypeScript or JavaScript line `i` opens, if any.
pub open spec fn ts_tile(ls: Seq<Seq<char>>, i: int, lang: Language) -> Option<TileModel> {
    let t = trim(ls[i]);
    if has_prefix(t, "import "@) {
        Some(one_line(CodeKind::Import, t, t, i, lang))
    } else if has_prefix(t, "//"@) {
        Some(one_line(CodeKind::Comment, "comment"@, t, i, lang))
    } else if has_sub(t, "function "@) {
        Some(braced(CodeKind::Function, name_after_spec(t, "function "@), ls, i, lang))
    } else if has_prefix(t, "class "@) {
        Some(braced(CodeKind::Class, name_after_spec(t, "class "@), ls, i, lang))
    } else if has_prefix(t, "interface "@) || has_prefix(t, "type "@) {
        let kw = if has_prefix(t, "interface "@) {
            "interface "@
        } else {
            "type "@
        };
        Some(braced(CodeKind::Struct, name_after_spec(t, kw), ls, i, lang))
    } else {
        None
    }
}

/// TypeScript or JavaScript line `i` starts a brace block.
pub open spec fn ts_reads_braces(ls: Seq<Seq<char>>, i: int) -> bool {
    let t = trim(ls[i]);
    !has_prefix(t, "import "@) && !has_prefix(t, "//"@) && (has_sub(t, "function "@) || has_prefix(
        t,
        "class "@,
    ) || has_prefix(t, "interface "@) || has_prefix(t, "type "@))
}

/// The tile that Go line `i` opens, if any.
pub open spec fn go_tile(ls: Seq<Seq<char>>, i: int, lang: Language) -> Option<TileModel> {
    let t = trim(ls[i]);
    if has_prefix(t, "//"@) {
        Some(one_line(CodeKind::Comment, "comment"@, t, i, lang))
    } else if has_prefix(t, "import "@) || has_prefix(t, "package "@) {
        Some(one_line(CodeKind::Import, t, t, i, lang))
    } else if has_prefix(t, "func "@) {
        Some(braced(CodeKind::Function, name_after_spec(t, "func "@), ls, i, lang))
    } else if has_prefix(t, "type "@) && has_sub(t, "struct"@) {
        Some(braced(CodeKind::Struct, name_after_spec(t, "type "@), ls, i, lang))
    } else {
        None
    }
}

/// Go line `i` starts a brace block.
pub open spec fn go_reads_braces(ls: Seq<Seq<char>>, i: int) -> bool {
    let t = trim(ls[i]);
    !has_prefix(t, "//"@) && !(has_prefix(t, "import "@) || has_prefix(t, "package "@)) && (
    has_prefix(t, "func "@) || (has_prefix(t, "type "@) && has_sub(t, "struct"@)))
}

/// A C comment line.
pub open spec fn c_comment_line(t: Seq<char>) -> bool {
    has_prefix(t, "//"@) || has_prefix(t, "/*"@)
}

/// A trimmed C line that opens a function definition.
pub open spec fn c_fn_line(t: Seq<char>) -> bool {
    has_sub(t, "("@) && has_sub(t, ")"@) && !has_prefix(t, "if"@) && !has_prefix(t, "for"@)
        && !has_prefix(t, "while"@) && !has_prefix(t, "return"@) && has_sub(t, "{"@)
}

/// The brace-block tile from line `i`, kept only when its text is not empty.
pub open spec fn braced_nonempty(
    kind: CodeKind,
    name: Seq<char>,
    ls: Seq<Seq<char>>,
    i: int,
    lang: Language,
) -> Option<TileModel> {
    if brace_extent(ls, i).0.len() > 0 {
        Some(braced(kind, name, ls, i, lang))
    } else {
        None
    }
}

/// The tile that C line `i` opens, if any.
pub open spec fn c_tile(ls: Seq<Seq<char>>, i: int, lang: Language) -> Option<TileModel> {
    let t = trim(ls[i]);
    if c_comment_line(t) {
        Some(one_line(CodeKind::Comment, "comment"@, t, i, lang))
    } else if has_prefix(t, "#include"@) {
        Some(one_line(CodeKind::Import, t, t, i, lang))
    } else if c_fn_line(t) {
        braced_nonempty(CodeKind::Function, trim(first_piece(t, Stop::OpenParen)), ls, i, lang)
    } else {
        None
    }
}

/// C line `i` starts a brace block.
pub open spec fn c_reads_braces(ls: Seq<Seq<char>>, i: int) -> bool {
    let t = trim(ls[i]);
    !c_comment_line(t) && !has_prefix(t, "#include"@) && c_fn_line(t)
}

/// A trimmed Java line that opens a class.
pub open spec fn java_class_line(t: Seq<char>) -> bool {
    has_sub(t, "class "@) && !has_prefix(t, "if"@)
}

/// A trimmed Java line that opens a method.
pub open spec fn java_method_line(t: Seq<char>) -> bool {
    (has_sub(t, "void "@) || has_sub(t, "static "@)) && has_sub(t, "("@) && !has_prefix(t, "if"@)
        && !has_prefix(t, "for"@) && !has_prefix(t, "while"@) && has_sub(t, "{"@)
}

/// The name of a Java method: the last space-separated word before `(`.
pub open spec fn java_method_name(t: Seq<char>) -> Seq<char> {
    after_last(trim(first_piece(t, Stop::OpenParen)), ' ')
}

/// The tile that Java line `i` opens, if any.
pub open spec fn java_tile(ls: Seq<Seq<char>>, i: int, lang: Language) -> Option<TileModel> {
    let t = trim(ls[i]);
    if c_comment_line(t) {
        Some(one_line(CodeKind::Comment, "comment"@, t, i, lang))
    } else if has_prefix(t, "import "@) || has_prefix(t, "package "@) {
        Some(one_line(CodeKind::Import, t, t, i, lang))
    } else if java_class_line(t) {
        Some(braced(CodeKind::Class, name_after_spec(t, "class "@), ls, i, lang))
    } else if java_method_line(t) {
        braced_nonempty(CodeKind::Method, java_method_name(t), ls, i, lang)
    } else {
        None
    }
}

/// Java line `i` starts a brace block.
pub open spec fn java_reads_braces(ls: Seq<Seq<char>>, i: int) -> bool {
    let t = trim(ls[i]);
    !c_comment_line(t) && !(has_prefix(t, "import "@) || has_prefix(t, "package "@)) && (
    java_class_line(t) || java_method_line(t))
}

/// The tile that line `i` opens in the line-by-line reader for `dialect`.
pub open spec fn line_tile(dialect: Language, ls: Seq<Seq<char>>, i: int, lang: Language) -> Option<
    TileModel,
> {
    match dialect {
        Language::Rust => rust_tile(ls, i, lang),
        Language::Python => python_tile(ls, i, lang),
        Language::TypeScript | Language::JavaScript => ts_tile(ls, i, lang),
        Language::Go => go_tile(ls, i, lang),
        Language::C => c_tile(ls, i, lang),
        Language::Java => java_tile(ls, i, lang),
        Language::Unknown => None,
    }
}

/// Line `i` starts a brace block in the reader for `dialect`.
pub open spec fn reads_braces(dialect: Language, ls: Seq<Seq<char>>, i: int) -> bool {
    match dialect {
        Language::Rust => rust_reads_braces(ls, i),
        Language::TypeScript | Language::JavaScript => ts_reads_braces(ls, i),
        Language::Go => go_reads_braces(ls, i),
        Language::C => c_reads_braces(ls, i),
        Language::Java => java_reads_braces(ls, i),
        Language::Python | Language::Unknown => false,
    }
}

/// The tiles that lines `0..n` open, in line order.
pub open spec fn line_tiles(dialect: Language, ls: Seq<Seq<char>>, n: int, lang: Language) -> Seq<
    TileModel,
>
    decreases n,
{
    if n <= 0 {
        seq![]
    } else {
        let prev = line_tiles(dialect, ls, n - 1, lang);
        match line_tile(dialect, ls, n - 1, lang) {
            Some(t) => prev.push(t),
            None => prev,
        }
    }
}

/// A block of the generic reader: the non-blank lines `start..i`, named by
/// the first word of its first line and ending with the blank line `i`.
pub open spec fn block_tile(ls: Seq<Seq<char>>, start: int, i: int, lang: Language) -> TileModel {
    TileModel {
        kind: CodeKind::Block,
        name: first_piece(trim(ls[start]), Stop::WordEnd),
        body: join_lines(ls.subrange(start, i)),
        start_line: start + 1,
        end_line: i,
        language: lang,
    }
}

/// The block that the text ends in, named `"final"`.
pub open spec fn final_block(ls: Seq<Seq<char>>, start: int, lang: Language) -> TileModel {
    TileModel {
        kind: CodeKind::Block,
        name: "final"@,
        body: join_lines(ls.subrange(start, ls.len() as int)),
        start_line: start + 1,
        end_line: ls.len() as int,
        language: lang,
    }
}

/// The blocks that lines `i..` complete, when lines `start..i` form an open
/// block (`open`) or no block is open: each maximal run of non-blank lines
/// is one block.
pub open spec fn generic_tiles(
    ls: Seq<Seq<char>>,
    i: int,
    start: int,
    open: bool,
    lang: Language,
) -> Seq<TileModel>
    decreases ls.len() - i,
{
    if i < 0 || i >= ls.len() {
        if open {
            seq![final_block(ls, start, lang)]
        } else {
            seq![]
        }
    } else if is_blank(ls[i]) {
        if open {
            seq![block_tile(ls, start, i, lang)] + generic_tiles(ls, i + 1, start, false, lang)
        } else {
            generic_tiles(ls, i + 1, start, false, lang)
        }
    } else if open {
        generic_tiles(ls, i + 1, start, true, lang)
    } else {
        generic_tiles(ls, i + 1, i, true, lang)
    }
}

/// The tiles that the reader for `lang` produces from the lines `ls`;
/// TypeScript and JavaScript share a reader, and text of unknown language
/// is cut into blocks at blank lines.
pub open spec fn decomposition(lang: Language, ls: Seq<Seq<char>>) -> Seq<TileModel> {
    match lang {
        Language::Unknown => generic_tiles(ls, 0, 0, false, lang),
        Language::TypeScript | Language::JavaScript => line_tiles(
            Language::TypeScript,
            ls,
            ls.len() as int,
            lang,
        ),
        _ => line_tiles(lang, ls, ls.len() as int, lang),
    }
}

/// The language a file extension names.
pub open spec fn extension_language(ext: Seq<char>) -> Option<Language> {
    if ext == "rs"@ {
        Some(Language::Rust)
    } else if ext == "py"@ {
        Some(Language::Python)
    } else if ext == "ts"@ {
        Some(Language::TypeScript)
    } else if ext == "js"@ {
        Some(Language::JavaScript)
    } else if ext == "go"@ {
        Some(Language::Go)
    } else if ext == "c"@ || ext == "h"@ {
        Some(Language::C)
    } else if ext == "java"@ {
        Some(Language::Java)
    } else {
        None
    }
}

/// The language that the text itself suggests.
pub open spec fn content_language(input: Seq<char>) -> Language {
    if has_sub(input, "fn "@) && has_sub(input, "let mut"@) {
        Language::Rust
    } else if has_sub(input, "def "@) && has_sub(input, "import "@) {
        Language::Python
    } else if has_sub(input, "func "@) && has_sub(input, "package "@) {
        Language::Go
    } else {
        Language::Unknown
    }
}

/// The language of `input`: the one its file name's extension (what follows
/// the last `.`) names, else the one its text suggests.
pub open spec fn detected_language(input: Seq<char>, filename: Option<Seq<char>>) -> Language {
    match filename {
        Some(name) => match extension_language(after_last(name, '.')) {
            Some(l) => l,
            None => content_language(input),
        },
        None => content_language(input),
    }
}

/// The view of an optional string.
pub open spec fn opt_view(s: Option<&str>) -> Option<Seq<char>> {
    match s {
        Some(n) => Some(n@),
        None => None,
    }
}

/// No brace block that the reader for `dialect` scans drives the depth
/// counter out of the range of `i32`.
pub open spec fn braces_fit(dialect: Language, ls: Seq<Seq<char>>) -> bool {
    forall|i: int|
        0 <= i < ls.len() && #[trigger] reads_braces(dialect, ls, i) ==> !(brace_end(
            ls,
            i,
        ) is Overflow)
}

/// The models of a sequence of tiles.
pub open spec fn models(ts: Seq<CodeTile>) -> Seq<TileModel> {
    ts.map_values(|t: CodeTile| t@)
}

/// Every tile records its line count in its metadata.
pub open spec fn all_have_line_meta(ts: Seq<CodeTile>) -> bool {
    forall|j: int| 0 <= j < ts.len() ==> #[trigger] ts[j].has_line_meta()
}

/// `r` is the tile that `m` describes, with its line count recorded.
pub open spec fn tile_matches(r: Option<CodeTile>, m: Option<TileModel>) -> bool {
    match r {
        Some(t) => m == Some(t@) && t.has_line_meta(),
        None => m is None,
    }
}

} // verus!

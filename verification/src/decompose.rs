//! The decomposer: language detection and the per-language readers.

use std::collections::HashMap;
use uuid::Uuid;
use vstd::prelude::*;

use crate::blocks::{
    after_last_char, brace_block_lines, brace_end, first_piece_of, indent_block_lines,
    name_after_chars, Stop,
};
use crate::model::{
    all_have_line_meta, braced, braced_nonempty, braces_fit, c_reads_braces, c_tile,
    decomposition, detected_language, generic_tiles, go_reads_braces, go_tile, indented,
    java_reads_braces, java_tile, line_tile, line_tiles, models, one_line, opt_view,
    python_tile, reads_braces, rust_reads_braces, rust_tile, tile_matches, ts_reads_braces,
    ts_tile, block_tile,
};
use crate::external::{insert_new_key, new_tile_id};
use crate::text::{
    chars_of, contains, equals, join_range, lines_of, push_decimal, split_lines,
    starts_with, string_of, trim_chars, views,
};
use crate::tile::{line_count_meta, span, CodeKind, CodeTile, Language, TileModel};

verus! {

/// Splits source text of one language into tiles.
pub struct CodeDecomposer {
    pub language: Language,
}

/// A string holding the characters of `s`.
fn string_from(s: &str) -> (r: String)
    ensures
        r@ == s@,
{
    let c = chars_of(s);
    string_of(c.as_slice())
}

/// The number of lines from `start` to `end` (`end - start + 1`, at least 1).
fn line_span(start: usize, end: usize) -> (r: usize)
    requires
        start >= 1,
    ensures
        r == span(start as int, end as int),
{
    if end >= start {
        end - start + 1
    } else {
        1
    }
}

/// Metadata that records the line count of `start..=end` under `"lines"`.
fn lines_meta(start: usize, end: usize) -> (m: HashMap<String, String>)
    requires
        start >= 1,
    ensures
        line_count_meta(m@, start as int, end as int),
{
    let mut m: HashMap<String, String> = HashMap::new();
    let key = string_from("lines");
    let mut value = String::new();
    push_decimal(&mut value, line_span(start, end));
    let ghost k = key;
    insert_new_key(&mut m, key, value);
    assert(m@.dom() =~= set![k]);
    m
}

impl CodeDecomposer {
    /// A decomposer for `language`.
    pub fn new(language: Language) -> (r: Self)
        ensures
            r.language == language,
    {
        Self { language }
    }

    /// A tile of this decomposer's language with the id `id`.
    fn tile(&self, id: Uuid, kind: CodeKind, name: String, body: String, start: usize, end: usize) -> (t:
        CodeTile)
        requires
            start >= 1,
        ensures
            t.id == id,
            t@ == (TileModel {
                kind,
                name: name@,
                body: body@,
                start_line: start as int,
                end_line: end as int,
                language: self.language,
            }),
            t.has_line_meta(),
    {
        let meta = lines_meta(start, end);
        CodeTile {
            id,
            kind,
            name,
            body,
            start_line: start,
            end_line: end,
            language: self.language,
            meta,
        }
    }
}

impl CodeDecomposer {
    /// A tile that covers line `i` alone.
    fn one_line_tile(&self, kind: CodeKind, name: &[char], t: &[char], i: usize) -> (r: CodeTile)
        requires
            i < usize::MAX,
        ensures
            r@ == one_line(kind, name@, t@, i as int, self.language),
            r.has_line_meta(),
    {
        self.tile(new_tile_id(), kind, string_of(name), string_of(t), i + 1, i + 1)
    }

    /// A tile for the brace block that starts on line `i`.
    fn braced_tile(&self, kind: CodeKind, name: &[char], lines: &[Vec<char>], i: usize) -> (r:
        CodeTile)
        requires
            i < lines.len(),
            !(brace_end(views(lines@), i as int) is Overflow),
        ensures
            r@ == braced(kind, name@, views(lines@), i as int, self.language),
            r.has_line_meta(),
    {
        let (body, end) = brace_block_lines(lines, i);
        self.tile(new_tile_id(), kind, string_of(name), body, i + 1, end + 1)
    }

    /// A tile for the indented block whose header is line `i`.
    fn indented_tile(&self, kind: CodeKind, name: &[char], lines: &[Vec<char>], i: usize) -> (r:
        CodeTile)
        requires
            i < lines.len(),
        ensures
            r@ == indented(kind, name@, views(lines@), i as int, self.language),
            r.has_line_meta(),
    {
        let (body, end) = indent_block_lines(lines, i);
        self.tile(new_tile_id(), kind, string_of(name), body, i + 1, end + 1)
    }

    /// The tile that Rust line `i` opens, if any.
    fn rust_line(&self, lines: &[Vec<char>], i: usize) -> (r: Option<CodeTile>)
        requires
            i < lines.len(),
            rust_reads_braces(views(lines@), i as int) ==> !(brace_end(views(lines@), i as int) is Overflow),
        ensures
            tile_matches(r, rust_tile(views(lines@), i as int, self.language)),
    {
        let t = trim_chars(lines[i].as_slice());
        let t = t.as_slice();
        assert(lines@[i as int]@ == views(lines@)[i as int]);
        if starts_with(t, "use ") {
            Some(self.one_line_tile(CodeKind::Import, t, t, i))
        } else if starts_with(t, "fn ") || starts_with(t, "pub fn ") || starts_with(t, "async fn ")
            || starts_with(t, "pub async fn ") {
            let name = name_after_chars(t, "fn ");
            let kind = if starts_with(name.as_slice(), "test_") {
                CodeKind::Test
            } else {
                CodeKind::Function
            };
            Some(self.braced_tile(kind, name.as_slice(), lines, i))
        } else if starts_with(t, "struct ") || starts_with(t, "pub struct ") {
            let name = name_after_chars(t, "struct ");
            Some(self.braced_tile(CodeKind::Struct, name.as_slice(), lines, i))
        } else if starts_with(t, "enum ") || starts_with(t, "pub enum ") {
            let name = name_after_chars(t, "enum ");
            Some(self.braced_tile(CodeKind::Enum, name.as_slice(), lines, i))
        } else if starts_with(t, "impl ") {
            let name = name_after_chars(t, "impl ");
            Some(self.braced_tile(CodeKind::Impl, name.as_slice(), lines, i))
        } else if starts_with(t, "trait ") || starts_with(t, "pub trait ") {
            let name = name_after_chars(t, "trait ");
            Some(self.braced_tile(CodeKind::Trait, name.as_slice(), lines, i))
        } else if starts_with(t, "//") {
            let name = chars_of("comment");
            Some(self.one_line_tile(CodeKind::Comment, name.as_slice(), t, i))
        } else {
            None
        }
    }

    /// The brace-block tile from line `i`, kept only when its text is not empty.
    fn braced_tile_nonempty(&self, kind: CodeKind, name: &[char], lines: &[Vec<char>], i: usize) -> (r:
        Option<CodeTile>)
        requires
            i < lines.len(),
            !(brace_end(views(lines@), i as int) is Overflow),
        ensures
            tile_matches(r, braced_nonempty(kind, name@, views(lines@), i as int, self.language)),
    {
        let (body, end) = brace_block_lines(lines, i);
        if body.as_str().is_empty() {
            None
        } else {
            Some(self.tile(new_tile_id(), kind, string_of(name), body, i + 1, end + 1))
        }
    }

    /// The tile that Python line `i` opens, if any.
    fn python_line(&self, lines: &[Vec<char>], i: usize) -> (r: Option<CodeTile>)
        requires
            i < lines.len(),
        ensures
            tile_matches(r, python_tile(views(lines@), i as int, self.language)),
    {
        let t = trim_chars(lines[i].as_slice());
        let t = t.as_slice();
        assert(lines@[i as int]@ == views(lines@)[i as int]);
        if starts_with(t, "#") {
            let name = chars_of("comment");
            Some(self.one_line_tile(CodeKind::Comment, name.as_slice(), t, i))
        } else if starts_with(t, "import ") || starts_with(t, "from ") {
            Some(self.one_line_tile(CodeKind::Import, t, t, i))
        } else if starts_with(t, "def ") || starts_with(t, "async def ") {
            let name = name_after_chars(t, "def ");
            let kind = if starts_with(name.as_slice(), "test_") {
                CodeKind::Test
            } else {
                CodeKind::Function
            };
            Some(self.indented_tile(kind, name.as_slice(), lines, i))
        } else if starts_with(t, "class ") {
            let name = name_after_chars(t, "class ");
            Some(self.indented_tile(CodeKind::Class, name.as_slice(), lines, i))
        } else {
            None
        }
    }

    /// The tile that TypeScript or JavaScript line `i` opens, if any.
    fn ts_line(&self, lines: &[Vec<char>], i: usize) -> (r: Option<CodeTile>)
        requires
            i < lines.len(),
            ts_reads_braces(views(lines@), i as int) ==> !(brace_end(views(lines@), i as int) is Overflow),
        ensures
            tile_matches(r, ts_tile(views(lines@), i as int, self.language)),
    {
        let t = trim_chars(lines[i].as_slice());
        let t = t.as_slice();
        assert(lines@[i as int]@ == views(lines@)[i as int]);
        if starts_with(t, "import ") {
            Some(self.one_line_tile(CodeKind::Import, t, t, i))
        } else if starts_with(t, "//") {
            let name = chars_of("comment");
            Some(self.one_line_tile(CodeKind::Comment, name.as_slice(), t, i))
        } else if contains(t, "function ") {
            let name = name_after_chars(t, "function ");
            Some(self.braced_tile(CodeKind::Function, name.as_slice(), lines, i))
        } else if starts_with(t, "class ") {
            let name = name_after_chars(t, "class ");
            Some(self.braced_tile(CodeKind::Class, name.as_slice(), lines, i))
        } else if starts_with(t, "interface ") || starts_with(t, "type ") {
            let name = if starts_with(t, "interface ") {
                name_after_chars(t, "interface ")
            } else {
                name_after_chars(t, "type ")
            };
            Some(self.braced_tile(CodeKind::Struct, name.as_slice(), lines, i))
        } else {
            None
        }
    }

    /// The tile that Go line `i` opens, if any.
    fn go_line(&self, lines: &[Vec<char>], i: usize) -> (r: Option<CodeTile>)
        requires
            i < lines.len(),
            go_reads_braces(views(lines@), i as int) ==> !(brace_end(views(lines@), i as int) is Overflow),
        ensures
            tile_matches(r, go_tile(views(lines@), i as int, self.language)),
    {
        let t = trim_chars(lines[i].as_slice());
        let t = t.as_slice();
        assert(lines@[i as int]@ == views(lines@)[i as int]);
        if starts_with(t, "//") {
            let name = chars_of("comment");
            Some(self.one_line_tile(CodeKind::Comment, name.as_slice(), t, i))
        } else if starts_with(t, "import ") || starts_with(t, "package ") {
            Some(self.one_line_tile(CodeKind::Import, t, t, i))
        } else if starts_with(t, "func ") {
            let name = name_after_chars(t, "func ");
            Some(self.braced_tile(CodeKind::Function, name.as_slice(), lines, i))
        } else if starts_with(t, "type ") && contains(t, "struct") {
            let name = name_after_chars(t, "type ");
            Some(self.braced_tile(CodeKind::Struct, name.as_slice(), lines, i))
        } else {
            None
        }
    }

    /// The tile that C line `i` opens, if any.
    fn c_line(&self, lines: &[Vec<char>], i: usize) -> (r: Option<CodeTile>)
        requires
            i < lines.len(),
            c_reads_braces(views(lines@), i as int) ==> !(brace_end(views(lines@), i as int) is Overflow),
        ensures
            tile_matches(r, c_tile(views(lines@), i as int, self.language)),
    {
        let t = trim_chars(lines[i].as_slice());
        let t = t.as_slice();
        assert(lines@[i as int]@ == views(lines@)[i as int]);
        if starts_with(t, "//") || starts_with(t, "/*") {
            let name = chars_of("comment");
            Some(self.one_line_tile(CodeKind::Comment, name.as_slice(), t, i))
        } else if starts_with(t, "#include") {
            Some(self.one_line_tile(CodeKind::Import, t, t, i))
        } else if contains(t, "(") && contains(t, ")") && !starts_with(t, "if") && !starts_with(
            t,
            "for",
        ) && !starts_with(t, "while") && !starts_with(t, "return") && contains(t, "{") {
            let head = first_piece_of(t, 0, Stop::OpenParen);
            assert(t@.skip(0) =~= t@);
            let name = trim_chars(head.as_slice());
            self.braced_tile_nonempty(CodeKind::Function, name.as_slice(), lines, i)
        } else {
            None
        }
    }

    /// The tile that Java line `i` opens, if any.
    fn java_line(&self, lines: &[Vec<char>], i: usize) -> (r: Option<CodeTile>)
        requires
            i < lines.len(),
            java_reads_braces(views(lines@), i as int) ==> !(brace_end(views(lines@), i as int) is Overflow),
        ensures
            tile_matches(r, java_tile(views(lines@), i as int, self.language)),
    {
        let t = trim_chars(lines[i].as_slice());
        let t = t.as_slice();
        assert(lines@[i as int]@ == views(lines@)[i as int]);
        if starts_with(t, "//") || starts_with(t, "/*") {
            let name = chars_of("comment");
            Some(self.one_line_tile(CodeKind::Comment, name.as_slice(), t, i))
        } else if starts_with(t, "import ") || starts_with(t, "package ") {
            Some(self.one_line_tile(CodeKind::Import, t, t, i))
        } else if contains(t, "class ") && !starts_with(t, "if") {
            let name = name_after_chars(t, "class ");
            Some(self.braced_tile(CodeKind::Class, name.as_slice(), lines, i))
        } else if (contains(t, "void ") || contains(t, "static ")) && contains(t, "(") && !starts_with(
            t,
            "if",
        ) && !starts_with(t, "for") && !starts_with(t, "while") && contains(t, "{") {
            let head = first_piece_of(t, 0, Stop::OpenParen);
            assert(t@.skip(0) =~= t@);
            let head = trim_chars(head.as_slice());
            let name = after_last_char(head.as_slice(), ' ');
            self.braced_tile_nonempty(CodeKind::Method, name.as_slice(), lines, i)
        } else {
            None
        }
    }

    /// The tile that line `i` opens in the line-by-line reader for `dialect`.
    fn line_tile_at(&self, dialect: Language, lines: &[Vec<char>], i: usize) -> (r: Option<CodeTile>)
        requires
            i < lines.len(),
            braces_fit(dialect, views(lines@)),
        ensures
            tile_matches(r, line_tile(dialect, views(lines@), i as int, self.language)),
    {
        assert(reads_braces(dialect, views(lines@), i as int) ==> !(brace_end(views(lines@), i as int) is Overflow));
        match dialect {
            Language::Rust => self.rust_line(lines, i),
            Language::Python => self.python_line(lines, i),
            Language::TypeScript | Language::JavaScript => self.ts_line(lines, i),
            Language::Go => self.go_line(lines, i),
            Language::C => self.c_line(lines, i),
            Language::Java => self.java_line(lines, i),
            Language::Unknown => None,
        }
    }

    /// The tiles that the lines open, one line at a time, in line order.
    fn read_lines(&self, dialect: Language, lines: &[Vec<char>]) -> (r: Vec<CodeTile>)
        requires
            braces_fit(dialect, views(lines@)),
        ensures
            models(r@) == line_tiles(dialect, views(lines@), lines@.len() as int, self.language),
            all_have_line_meta(r@),
    {
        let n = lines.len();
        let mut tiles: Vec<CodeTile> = Vec::new();
        for i in 0..n
            invariant
                n == lines@.len(),
                braces_fit(dialect, views(lines@)),
                models(tiles@) == line_tiles(dialect, views(lines@), i as int, self.language),
                all_have_line_meta(tiles@),
        {
            let ghost before = tiles@;
            match self.line_tile_at(dialect, lines, i) {
                Some(t) => {
                    tiles.push(t);
                    assert(models(tiles@) =~= models(before).push(t@));
                },
                None => {},
            }
        }
        tiles
    }

    /// The lines of `input` as characters.
    fn lines_of_input(input: &str) -> (r: Vec<Vec<char>>)
        ensures
            views(r@) == lines_of(input@),
    {
        let c = chars_of(input);
        split_lines(c.as_slice())
    }

    /// Reads Rust: `use` lines, functions (named `test_...`: tests),
    /// structs, enums, impls, traits and `//` comments.
    pub fn decompose_rust(&self, input: &str) -> (r: Vec<CodeTile>)
        requires
            braces_fit(Language::Rust, lines_of(input@)),
        ensures
            models(r@) == line_tiles(Language::Rust, lines_of(input@), lines_of(input@).len() as int, self.language),
            all_have_line_meta(r@),
    {
        let lines = Self::lines_of_input(input);
        self.read_lines(Language::Rust, lines.as_slice())
    }

    /// Reads Python: `#` comments, imports, functions (named `test_...`:
    /// tests) and classes, each block by its indentation.
    pub fn decompose_python(&self, input: &str) -> (r: Vec<CodeTile>)
        ensures
            models(r@) == line_tiles(Language::Python, lines_of(input@), lines_of(input@).len() as int, self.language),
            all_have_line_meta(r@),
    {
        let lines = Self::lines_of_input(input);
        self.read_lines(Language::Python, lines.as_slice())
    }

    /// Reads TypeScript and JavaScript: imports, `//` comments, functions,
    /// classes, and interfaces and types (as structs).
    pub fn decompose_ts(&self, input: &str) -> (r: Vec<CodeTile>)
        requires
            braces_fit(Language::TypeScript, lines_of(input@)),
        ensures
            models(r@) == line_tiles(Language::TypeScript, lines_of(input@), lines_of(input@).len() as int, self.language),
            all_have_line_meta(r@),
    {
        let lines = Self::lines_of_input(input);
        self.read_lines(Language::TypeScript, lines.as_slice())
    }

    /// Reads Go: `//` comments, imports and packages, functions and struct
    /// types.
    pub fn decompose_go(&self, input: &str) -> (r: Vec<CodeTile>)
        requires
            braces_fit(Language::Go, lines_of(input@)),
        ensures
            models(r@) == line_tiles(Language::Go, lines_of(input@), lines_of(input@).len() as int, self.language),
            all_have_line_meta(r@),
    {
        let lines = Self::lines_of_input(input);
        self.read_lines(Language::Go, lines.as_slice())
    }

    /// Reads C: `//` and `/*` comments, `#include`s and function definitions.
    pub fn decompose_c(&self, input: &str) -> (r: Vec<CodeTile>)
        requires
            braces_fit(Language::C, lines_of(input@)),
        ensures
            models(r@) == line_tiles(Language::C, lines_of(input@), lines_of(input@).len() as int, self.language),
            all_have_line_meta(r@),
    {
        let lines = Self::lines_of_input(input);
        self.read_lines(Language::C, lines.as_slice())
    }

    /// Reads Java: comments, imports and packages, classes and methods.
    pub fn decompose_java(&self, input: &str) -> (r: Vec<CodeTile>)
        requires
            braces_fit(Language::Java, lines_of(input@)),
        ensures
            models(r@) == line_tiles(Language::Java, lines_of(input@), lines_of(input@).len() as int, self.language),
            all_have_line_meta(r@),
    {
        let lines = Self::lines_of_input(input);
        self.read_lines(Language::Java, lines.as_slice())
    }

    /// Reads text of unknown language: each run of non-blank lines is a
    /// block, named by the first word of its first line; the last run, when
    /// the text does not end in a blank line, is named `"final"`.
    pub fn decompose_generic(&self, input: &str) -> (r: Vec<CodeTile>)
        ensures
            models(r@) == generic_tiles(lines_of(input@), 0, 0, false, self.language),
            all_have_line_meta(r@),
    {
        let lines = Self::lines_of_input(input);
        let ghost ls = views(lines@);
        let n = lines.len();
        let mut tiles: Vec<CodeTile> = Vec::new();
        let mut block_start: usize = 0;
        let mut open = false;
        for i in 0..n
            invariant
                n == lines@.len(),
                ls == views(lines@),
                open ==> block_start < i,
                models(tiles@) + generic_tiles(ls, i as int, block_start as int, open, self.language)
                    == generic_tiles(ls, 0, 0, false, self.language),
                all_have_line_meta(tiles@),
        {
            let line = lines[i].as_slice();
            assert(line@ == ls[i as int]);
            let t = trim_chars(line);
            if t.len() == 0 && open {
                let body = join_range(lines.as_slice(), block_start, i);
                let first = lines[block_start].as_slice();
                assert(first@ == ls[block_start as int]);
                let first = trim_chars(first);
                let name = first_piece_of(first.as_slice(), 0, Stop::WordEnd);
                assert(first@.skip(0) =~= first@);
                let tile = self.tile(new_tile_id(), CodeKind::Block, string_of(name.as_slice()), body, block_start + 1, i);
                let ghost before = tiles@;
                tiles.push(tile);
                proof {
                    assert(models(tiles@) =~= models(before).push(block_tile(ls, block_start as int, i as int, self.language)));
                    assert(models(tiles@) + generic_tiles(ls, i + 1, block_start as int, false, self.language)
                        =~= models(before) + generic_tiles(ls, i as int, block_start as int, true, self.language));
                }
                open = false;
            } else if t.len() != 0 {
                if !open {
                    block_start = i;
                    open = true;
                }
            }
        }
        if open {
            let body = join_range(lines.as_slice(), block_start, n);
            let name = string_from("final");
            let tile = self.tile(new_tile_id(), CodeKind::Block, name, body, block_start + 1, n);
            let ghost before = tiles@;
            tiles.push(tile);
            assert(models(tiles@) =~= models(before) + generic_tiles(ls, n as int, block_start as int, true, self.language));
        } else {
            assert(models(tiles@) =~= models(tiles@) + generic_tiles(ls, n as int, block_start as int, false, self.language));
        }
        tiles
    }

    /// Splits `input` into tiles with the reader for this decomposer's
    /// language. The brace depth is counted in an `i32`; the text must not
    /// drive it out of that range in any block the reader scans.
    pub fn decompose(&self, input: &str) -> (r: Vec<CodeTile>)
        requires
            braces_fit(self.language, lines_of(input@)),
        ensures
            models(r@) == decomposition(self.language, lines_of(input@)),
            all_have_line_meta(r@),
    {
        match self.language {
            Language::Rust => self.decompose_rust(input),
            Language::Python => self.decompose_python(input),
            Language::TypeScript => self.decompose_ts(input),
            Language::JavaScript => {
                let ghost ls = lines_of(input@);
                assert forall|i: int|
                    0 <= i < ls.len() && #[trigger] reads_braces(Language::TypeScript, ls, i) implies !(brace_end(
                        ls,
                        i,
                    ) is Overflow) by {
                    assert(reads_braces(Language::JavaScript, ls, i));
                }
                self.decompose_ts(input)
            },
            Language::Go => self.decompose_go(input),
            Language::C => self.decompose_c(input),
            Language::Java => self.decompose_java(input),
            Language::Unknown => self.decompose_generic(input),
        }
    }

    /// The language of `input`: the one that the extension of `filename`
    /// names (`rs`, `py`, `ts`, `js`, `go`, `c` or `h`, `java`), else Rust
    /// for text with `fn ` and `let mut`, Python for `def ` and `import `,
    /// Go for `func ` and `package `, and otherwise unknown.
    pub fn detect_language(input: &str, filename: Option<&str>) -> (r: Language)
        ensures
            r == detected_language(input@, opt_view(filename)),
    {
        match filename {
            Some(name) => {
                let name = chars_of(name);
                let ext = after_last_char(name.as_slice(), '.');
                let ext = ext.as_slice();
                if equals(ext, "rs") {
                    return Language::Rust;
                } else if equals(ext, "py") {
                    return Language::Python;
                } else if equals(ext, "ts") {
                    return Language::TypeScript;
                } else if equals(ext, "js") {
                    return Language::JavaScript;
                } else if equals(ext, "go") {
                    return Language::Go;
                } else if equals(ext, "c") || equals(ext, "h") {
                    return Language::C;
                } else if equals(ext, "java") {
                    return Language::Java;
                }
            },
            None => {},
        }
        let text = chars_of(input);
        let text = text.as_slice();
        if contains(text, "fn ") && contains(text, "let mut") {
            Language::Rust
        } else if contains(text, "def ") && contains(text, "import ") {
            Language::Python
        } else if contains(text, "func ") && contains(text, "package ") {
            Language::Go
        } else {
            Language::Unknown
        }
    }
}

} // verus!

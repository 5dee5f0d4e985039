//! The tiles that a decomposition produces, their kinds and languages, and
//! the mathematical model that contracts speak of.

use std::collections::HashMap;
use uuid::Uuid;
use vstd::prelude::*;

use crate::text::decimal;

verus! {

/// A UUID is carried through the library unread.
#[verifier::external_type_specification]
#[verifier::external_body]
pub struct ExUuid(Uuid);

/// What a tile holds.
#[derive(Debug, Clone, Copy, PartialEq, Eq, Structural)]
pub enum CodeKind {
    Function,
    Struct,
    Enum,
    Impl,
    Trait,
    Class,
    Method,
    Import,
    Comment,
    Module,
    Block,
    Test,
}

/// The language a decomposer reads.
#[derive(Debug, Clone, Copy, PartialEq, Eq, Structural)]
pub enum Language {
    Rust,
    Python,
    TypeScript,
    JavaScript,
    Go,
    C,
    Java,
    Unknown,
}

/// One piece of decomposed source: its kind, name, text and the 1-based
/// range of lines it spans.
#[derive(Debug)]
pub struct CodeTile {
    pub id: Uuid,
    pub kind: CodeKind,
    pub name: String,
    pub body: String,
    pub start_line: usize,
    pub end_line: usize,
    pub language: Language,
    pub meta: HashMap<String, String>,
}

/// A tile as a mathematical value: everything but its random id and the
/// metadata map.
pub struct TileModel {
    pub kind: CodeKind,
    pub name: Seq<char>,
    pub body: Seq<char>,
    pub start_line: int,
    pub end_line: int,
    pub language: Language,
}

impl View for CodeTile {
    type V = TileModel;

    open spec fn view(&self) -> TileModel {
        TileModel {
            kind: self.kind,
            name: self.name@,
            body: self.body@,
            start_line: self.start_line as int,
            end_line: self.end_line as int,
            language: self.language,
        }
    }
}

/// Number of lines a tile from `start` to `end` covers: `end - start + 1`,
/// or 1 when `end` lies before `start`.
pub open spec fn span(start: int, end: int) -> nat {
    if end >= start {
        (end - start + 1) as nat
    } else {
        1
    }
}

/// The metadata map holds exactly one entry, `"lines"`, whose value is the
/// decimal line count of the range `start..=end`.
pub open spec fn line_count_meta(m: Map<String, String>, start: int, end: int) -> bool {
    &&& m.dom().finite()
    &&& m.dom().len() == 1
    &&& forall|k: String|
        #[trigger] m.contains_key(k) ==> k@ == "lines"@ && m[k]@ == decimal(span(start, end))
}

impl CodeTile {
    /// The tile's metadata records its line count.
    pub open spec fn has_line_meta(&self) -> bool {
        line_count_meta(self.meta@, self.start_line as int, self.end_line as int)
    }
}

impl Clone for CodeTile {
    fn clone(&self) -> (r: Self)
        ensures
            r@ == self@,
            r.id == self.id,
            r.meta@ == self.meta@,
    {
        CodeTile {
            id: self.id,
            kind: self.kind,
            name: self.name.clone(),
            body: self.body.clone(),
            start_line: self.start_line,
            end_line: self.end_line,
            language: self.language,
            meta: self.meta.clone(),
        }
    }
}

/// Summary counts over a list of tiles.
#[derive(Debug, Clone)]
pub struct CodeStats {
    pub tile_count: usize,
    pub total_lines: usize,
    pub kind_counts: HashMap<String, usize>,
}

} // verus!

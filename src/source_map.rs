//! Source-map tables: for each function definition, the byte span of the
//! source text that each code offset came from.

use vstd::prelude::*;

verus! {

/// A half-open range `start..end` of byte offsets into a source text.
#[derive(Clone, Copy, Debug, PartialEq, Eq)]
pub struct ByteSpan {
    pub start: u32,
    pub end: u32,
}

/// The span that one code offset maps to.
#[derive(Clone, Copy, Debug, PartialEq, Eq)]
pub struct CodeMapping {
    pub offset: u16,
    pub span: ByteSpan,
}

/// The code map of one function definition.
#[derive(Debug, PartialEq, Eq)]
pub struct FunctionSourceMap {
    pub fdef_idx: u16,
    pub code_map: Vec<CodeMapping>,
}

/// A decoded source map: one entry per function definition.
#[derive(Debug, PartialEq, Eq)]
pub struct SourceMapTable {
    pub functions: Vec<FunctionSourceMap>,
}

/// The looked-up pair is not in the table.
#[derive(Clone, Copy, Debug, PartialEq, Eq)]
pub enum NotFoundError {
    /// No entry for the function definition.
    Function,
    /// The function has no mapping for the code offset.
    Offset,
}

/// A table as a sequence of (function definition index, code map).
pub type TableModel = Seq<(u16, Seq<CodeMapping>)>;

impl View for SourceMapTable {
    type V = TableModel;

    open spec fn view(&self) -> TableModel {
        self.functions@.map_values(|f: FunctionSourceMap| (f.fdef_idx, f.code_map@))
    }
}

/// The code map of the first entry for `fdef` at or after position `from`.
pub open spec fn function_from(t: TableModel, fdef: u16, from: int) -> Option<Seq<CodeMapping>>
    decreases t.len() - from,
{
    if from < 0 || from >= t.len() {
        None
    } else if t[from].0 == fdef {
        Some(t[from].1)
    } else {
        function_from(t, fdef, from + 1)
    }
}

/// The span of the first mapping for `offset` at or after position `from`.
pub open spec fn offset_from(m: Seq<CodeMapping>, offset: u16, from: int) -> Option<ByteSpan>
    decreases m.len() - from,
{
    if from < 0 || from >= m.len() {
        None
    } else if m[from].offset == offset {
        Some(m[from].span)
    } else {
        offset_from(m, offset, from + 1)
    }
}

/// What a lookup of (`fdef`, `offset`) in `t` gives.
pub open spec fn lookup(t: TableModel, fdef: u16, offset: u16) -> Result<ByteSpan, NotFoundError> {
    match function_from(t, fdef, 0) {
        None => Err(NotFoundError::Function),
        Some(m) => match offset_from(m, offset, 0) {
            None => Err(NotFoundError::Offset),
            Some(span) => Ok(span),
        },
    }
}

/// Every span of the table starts no later than it ends.
pub open spec fn spans_ordered(t: TableModel) -> bool {
    forall|i: int, j: int|
        0 <= i < t.len() && 0 <= j < t[i].1.len() ==> #[trigger] t[i].1[j].span.start
            <= t[i].1[j].span.end
}

proof fn lemma_function_from_in(t: TableModel, fdef: u16, from: int)
    requires
        0 <= from,
    ensures
        function_from(t, fdef, from) matches Some(m) ==> exists|i: int|
            0 <= i < t.len() && #[trigger] t[i].1 == m,
    decreases t.len() - from,
{
    if from < t.len() && t[from].0 != fdef {
        lemma_function_from_in(t, fdef, from + 1);
    }
}

proof fn lemma_offset_from_in(m: Seq<CodeMapping>, offset: u16, from: int)
    requires
        0 <= from,
    ensures
        offset_from(m, offset, from) matches Some(s) ==> exists|j: int|
            0 <= j < m.len() && #[trigger] m[j].span == s,
    decreases m.len() - from,
{
    if from < m.len() && m[from].offset != offset {
        lemma_offset_from_in(m, offset, from + 1);
    }
}

/// A span that a lookup finds in a table whose spans are ordered is
/// ordered too.
pub proof fn lemma_lookup_ordered(t: TableModel, fdef: u16, offset: u16)
    requires
        spans_ordered(t),
    ensures
        lookup(t, fdef, offset) matches Ok(s) ==> s.start <= s.end,
{
    lemma_function_from_in(t, fdef, 0);
    if let Some(m) = function_from(t, fdef, 0) {
        lemma_offset_from_in(m, offset, 0);
        if let Some(s) = offset_from(m, offset, 0) {
            let i = choose|i: int| 0 <= i < t.len() && #[trigger] t[i].1 == m;
            let j = choose|j: int| 0 <= j < m.len() && #[trigger] m[j].span == s;
            assert(t[i].1[j].span.start <= t[i].1[j].span.end);
        }
    }
}

impl SourceMapTable {
    /// Finds the span that code offset `offset` of function definition
    /// `fdef_idx` maps to.
    pub fn locate(&self, fdef_idx: u16, offset: u16) -> (r: Result<ByteSpan, NotFoundError>)
        ensures
            r == lookup(self@, fdef_idx, offset),
    {
        let n = self.functions.len();
        let mut i: usize = 0;
        while i < n
            invariant
                n == self@.len(),
                i <= n,
                function_from(self@, fdef_idx, 0) == function_from(self@, fdef_idx, i as int),
            decreases n - i,
        {
            let f = &self.functions[i];
            if f.fdef_idx == fdef_idx {
                let ghost m = f.code_map@;
                assert(self@[i as int] == (f.fdef_idx, m));
                assert(function_from(self@, fdef_idx, 0) == Some(m));
                let k = f.code_map.len();
                let mut j: usize = 0;
                while j < k
                    invariant
                        k == m.len(),
                        j <= k,
                        m == f.code_map@,
                        function_from(self@, fdef_idx, 0) == Some(m),
                        offset_from(m, offset, 0) == offset_from(m, offset, j as int),
                    decreases k - j,
                {
                    if f.code_map[j].offset == offset {
                        return Ok(f.code_map[j].span);
                    }
                    j = j + 1;
                }
                return Err(NotFoundError::Offset);
            }
            i = i + 1;
        }
        Err(NotFoundError::Function)
    }
}

} // verus!

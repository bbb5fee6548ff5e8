//! Conversion of byte offsets in a source text into (line, column)
//! positions, both counted from zero. A column counts characters.

use vstd::prelude::*;
use vstd::utf8::*;
use vstd::string::StringSliceAdditionalSpecFns;
use crate::source_map::ByteSpan;

verus! {

/// A zero-based line and character column.
#[derive(Clone, Copy, Debug, PartialEq, Eq)]
pub struct Position {
    pub line: u32,
    pub column: u32,
}

/// A span of positions, from `start` to `end`.
#[derive(Clone, Copy, Debug, PartialEq, Eq)]
pub struct Range {
    pub start: Position,
    pub end: Position,
}

/// The position of byte offset `i` of `b`: each line break starts a new
/// line at column zero, and each byte that starts a character advances the
/// column by one.
pub open spec fn pos_of(b: Seq<u8>, i: int) -> (int, int)
    decreases i,
{
    if i <= 0 {
        (0, 0)
    } else {
        let (l, c) = pos_of(b, i - 1);
        if b[i - 1] == 10u8 {
            (l + 1, 0)
        } else if is_continuation_byte(b[i - 1]) {
            (l, c)
        } else {
            (l, c + 1)
        }
    }
}

/// `p` precedes or equals `q`, by line and then by column.
pub open spec fn pos_le(p: (int, int), q: (int, int)) -> bool {
    p.0 < q.0 || (p.0 == q.0 && p.1 <= q.1)
}

/// Number of bytes of `b[a..i]` that start a character.
pub open spec fn leads(b: Seq<u8>, a: int, i: int) -> int
    decreases i - a,
{
    if i <= a {
        0
    } else if is_continuation_byte(b[i - 1]) {
        leads(b, a, i - 1)
    } else {
        leads(b, a, i - 1) + 1
    }
}

/// No line break in `b[a..i]`.
pub open spec fn no_break(b: Seq<u8>, a: int, i: int) -> bool {
    forall|j: int| a <= j < i ==> b[j] != 10u8
}

/// Positions never go back as the offset grows.
pub proof fn lemma_pos_monotone(b: Seq<u8>, i: int, j: int)
    requires
        0 <= i <= j <= b.len(),
    ensures
        pos_le(pos_of(b, i), pos_of(b, j)),
    decreases j - i,
{
    if i < j {
        lemma_pos_monotone(b, i, j - 1);
    }
}

proof fn lemma_pos_in_line(b: Seq<u8>, a: int, i: int)
    requires
        0 <= a <= i <= b.len(),
        no_break(b, a, i),
    ensures
        pos_of(b, i) == (pos_of(b, a).0, pos_of(b, a).1 + leads(b, a, i)),
    decreases i - a,
{
    if a < i {
        lemma_pos_in_line(b, a, i - 1);
    }
}

proof fn lemma_leads_bound(b: Seq<u8>, a: int, i: int)
    requires
        a <= i,
    ensures
        0 <= leads(b, a, i) <= i - a,
    decreases i - a,
{
    if a < i {
        lemma_leads_bound(b, a, i - 1);
    }
}

/// `s` lists the offsets at which the lines of `b` start, in order.
pub open spec fn wf_starts(s: Seq<usize>, b: Seq<u8>) -> bool {
    &&& s.len() >= 1
    &&& s[0] == 0
    &&& forall|k: int|
        1 <= k < s.len() ==> {
            &&& s[k - 1] < #[trigger] s[k] <= b.len()
            &&& b[s[k] - 1] == 10u8
            &&& no_break(b, s[k - 1] as int, s[k] - 1)
        }
    &&& s[s.len() - 1] <= b.len()
    &&& no_break(b, s[s.len() - 1] as int, b.len() as int)
}

/// The offsets at which the lines of a text start, built by one scan of the
/// text and reusable for any number of lookups in it.
pub struct LineIndex {
    line_starts: Vec<usize>,
}

impl LineIndex {
    /// The line starts of `b` are exactly those recorded.
    #[verifier::opaque]
    pub closed spec fn wf_for(&self, b: Seq<u8>) -> bool {
        wf_starts(self.line_starts@, b)
    }

    proof fn lemma_starts(&self, b: Seq<u8>, k: int)
        requires
            self.wf_for(b),
            0 <= k < self.line_starts@.len(),
        ensures
            pos_of(b, self.line_starts@[k] as int) == (k, 0int),
        decreases k,
    {
        reveal(LineIndex::wf_for);
        let s = self.line_starts@;
        if k > 0 {
            self.lemma_starts(b, k - 1);
            lemma_pos_in_line(b, s[k - 1] as int, s[k] - 1);
        }
    }

    proof fn lemma_no_break_before(&self, b: Seq<u8>, k: int, i: int)
        requires
            self.wf_for(b),
            0 <= k < self.line_starts@.len(),
            self.line_starts@[k] <= i <= b.len(),
            k + 1 < self.line_starts@.len() ==> i < self.line_starts@[k + 1],
        ensures
            no_break(b, self.line_starts@[k] as int, i),
    {
        reveal(LineIndex::wf_for);
        let s = self.line_starts@;
        if k + 1 < s.len() {
            assert(no_break(b, s[k] as int, s[k + 1] - 1));
        }
    }

    proof fn lemma_first(&self, b: Seq<u8>)
        requires
            self.wf_for(b),
        ensures
            self.line_starts@.len() >= 1,
            self.line_starts@[0] == 0,
    {
        reveal(LineIndex::wf_for);
    }

    proof fn lemma_extend(starts: Seq<usize>, b: Seq<u8>, i: int)
        requires
            0 <= i < b.len(),
            b.len() <= usize::MAX,
            wf_starts(starts, b.subrange(0, i)),
            forall|k: int| 0 <= k < starts.len() ==> starts[k] <= i,
        ensures
            b[i] == 10u8 ==> wf_starts(starts.push((i + 1) as usize), b.subrange(0, i + 1)),
            b[i] != 10u8 ==> wf_starts(starts, b.subrange(0, i + 1)),
    {
        let p = b.subrange(0, i + 1);
        let q = b.subrange(0, i);
        assert forall|x: int, y: int| 0 <= x <= y <= i && no_break(q, x, y) implies no_break(
            p,
            x,
            y,
        ) by {
            assert forall|j: int| x <= j < y implies p[j] != 10u8 by {
                assert(p[j] == q[j]);
            }
        }
        if b[i] == 10u8 {
            let t = starts.push((i + 1) as usize);
            assert forall|k: int| 1 <= k < t.len() implies {
                &&& t[k - 1] < #[trigger] t[k] <= p.len()
                &&& p[t[k] - 1] == 10u8
                &&& no_break(p, t[k - 1] as int, t[k] - 1)
            } by {
                if k < starts.len() {
                    assert(no_break(q, starts[k - 1] as int, starts[k] - 1));
                    assert(p[t[k] - 1] == q[t[k] - 1]);
                } else {
                    assert(t[k - 1] == starts[starts.len() - 1]);
                    assert(no_break(q, starts[starts.len() - 1] as int, i));
                }
            }
        }
    }

    /// Scans `text` once for its line breaks.
    pub fn new(text: &str) -> (r: Self)
        ensures
            r.wf_for(text.spec_bytes()),
    {
        let b = text.as_bytes();
        let n = b.len();
        let mut line_starts: Vec<usize> = Vec::new();
        line_starts.push(0);
        let mut i: usize = 0;
        assert(b@.subrange(0, 0) =~= Seq::<u8>::empty());
        while i < n
            invariant
                n == b@.len(),
                i <= n,
                wf_starts(line_starts@, b@.subrange(0, i as int)),
                forall|k: int| 0 <= k < line_starts@.len() ==> line_starts@[k] <= i,
            decreases n - i,
        {
            proof {
                LineIndex::lemma_extend(line_starts@, b@, i as int);
            }
            if b[i] == 10u8 {
                line_starts.push(i + 1);
            }
            i = i + 1;
        }
        assert(b@.subrange(0, n as int) =~= b@);
        let r = LineIndex { line_starts };
        proof {
            reveal(LineIndex::wf_for);
        }
        r
    }

    /// The position of byte offset `byte_index` of `text`, when that offset
    /// lies on a character boundary of the text and the position fits.
    pub fn location(&self, text: &str, byte_index: usize) -> (r: Option<Position>)
        requires
            self.wf_for(text.spec_bytes()),
        ensures
            r is Some <==> byte_index <= text.spec_bytes().len() && is_char_boundary(
                text.spec_bytes(),
                byte_index as int,
            ) && pos_of(text.spec_bytes(), byte_index as int).0 <= u32::MAX && pos_of(
                text.spec_bytes(),
                byte_index as int,
            ).1 <= u32::MAX,
            r matches Some(p) ==> (p.line as int, p.column as int) == pos_of(
                text.spec_bytes(),
                byte_index as int,
            ),
    {
        let b = text.as_bytes();
        let n = b.len();
        if byte_index > n || !text.is_char_boundary(byte_index) {
            return None;
        }
        let ghost bs = b@;
        let s = &self.line_starts;
        proof {
            self.lemma_first(bs);
        }
        let mut k: usize = 0;
        while k < s.len() - 1 && s[k + 1] <= byte_index
            invariant
                self.wf_for(bs),
                s == &self.line_starts,
                s@.len() >= 1,
                bs == text.spec_bytes(),
                byte_index <= bs.len(),
                k < s@.len(),
                s@[k as int] <= byte_index,
            decreases s@.len() - k,
        {
            k = k + 1;
        }
        let a = s[k];
        let mut j: usize = a;
        let mut col: usize = 0;
        while j < byte_index
            invariant
                a <= j <= byte_index,
                byte_index <= bs.len(),
                b@ == bs,
                col == leads(bs, a as int, j as int),
            decreases byte_index - j,
        {
            let c = b[j];
            if !(0x80u8 <= c && c <= 0xbfu8) {
                proof {
                    lemma_leads_bound(bs, a as int, j as int);
                }
                col = col + 1;
            }
            j = j + 1;
        }
        proof {
            self.lemma_no_break_before(bs, k as int, byte_index as int);
            self.lemma_starts(bs, k as int);
            lemma_pos_in_line(bs, a as int, byte_index as int);
        }
        if k > 0xffff_ffff || col > 0xffff_ffff {
            return None;
        }
        Some(Position { line: k as u32, column: col as u32 })
    }
}

/// Whether byte offset `i` of `b` has a position that `location` gives.
pub open spec fn has_position(b: Seq<u8>, i: int) -> bool {
    &&& 0 <= i <= b.len()
    &&& is_char_boundary(b, i)
    &&& pos_of(b, i).0 <= u32::MAX
    &&& pos_of(b, i).1 <= u32::MAX
}

/// The span of positions of `span` in `b`, when both ends have one.
pub open spec fn spec_to_line_col(b: Seq<u8>, span: ByteSpan) -> Option<((int, int), (int, int))> {
    if has_position(b, span.start as int) && has_position(b, span.end as int) {
        Some((pos_of(b, span.start as int), pos_of(b, span.end as int)))
    } else {
        None
    }
}

/// Converts a byte span of `text` into a span of positions, using the line
/// index of `text`; `None` when an end is outside the text or inside a
/// character.
pub fn to_line_col(index: &LineIndex, text: &str, span: ByteSpan) -> (r: Option<Range>)
    requires
        index.wf_for(text.spec_bytes()),
    ensures
        r is Some <==> spec_to_line_col(text.spec_bytes(), span) is Some,
        r matches Some(range) ==> spec_to_line_col(text.spec_bytes(), span) == Some((
            (range.start.line as int, range.start.column as int),
            (range.end.line as int, range.end.column as int),
        )),
        r matches Some(range) ==> span.start <= span.end ==> range.start.line < range.end.line || (
        range.start.line == range.end.line && range.start.column <= range.end.column),
{
    proof {
        if span.start <= span.end {
            lemma_line_col_ordered(text.spec_bytes(), span);
        }
    }
    let start = index.location(text, span.start as usize);
    let end = index.location(text, span.end as usize);
    match (start, end) {
        (Some(s), Some(e)) => Some(Range { start: s, end: e }),
        _ => None,
    }
}

/// The positions of an ordered byte span are ordered: the start precedes or
/// equals the end.
pub proof fn lemma_line_col_ordered(b: Seq<u8>, span: ByteSpan)
    requires
        span.start <= span.end,
    ensures
        spec_to_line_col(b, span) matches Some((p, q)) ==> pos_le(p, q),
{
    if spec_to_line_col(b, span) is Some {
        lemma_pos_monotone(b, span.start as int, span.end as int);
    }
}

} // verus!

//! The binary form of a source-map table, in the canonical compact encoding
//! (BCS): lengths as canonical ULEB128 of at most `MAX_SEQUENCE_LENGTH`,
//! integers little-endian. A table is the sequence of its functions; a
//! function is its definition index (`u16`) and the sequence of its
//! mappings; a mapping is its code offset (`u16`) and the start and end of
//! its span (`u32` each).

use vstd::prelude::*;
use crate::source_map::{ByteSpan, CodeMapping, FunctionSourceMap, SourceMapTable, TableModel};

verus! {

/// Largest length that the encoding admits.
pub const MAX_SEQUENCE_LENGTH: u64 = 0x7fff_ffff;

/// ULEB128 of `n`: seven bits per byte, low bits first, the high bit set on
/// every byte but the last.
pub open spec fn uleb(n: nat) -> Seq<u8>
    decreases n,
{
    if n < 128 {
        seq![n as u8]
    } else {
        seq![(n % 128 + 128) as u8] + uleb(n / 128)
    }
}

pub open spec fn le_u16(x: u16) -> Seq<u8> {
    seq![(x % 256) as u8, (x / 256) as u8]
}

pub open spec fn le_u32(x: u32) -> Seq<u8> {
    le_u16((x % 65536) as u16) + le_u16((x / 65536) as u16)
}

pub open spec fn enc_mapping(m: CodeMapping) -> Seq<u8> {
    le_u16(m.offset) + le_u32(m.span.start) + le_u32(m.span.end)
}

pub open spec fn enc_mappings(ms: Seq<CodeMapping>) -> Seq<u8>
    decreases ms.len(),
{
    if ms.len() == 0 {
        Seq::empty()
    } else {
        enc_mappings(ms.drop_last()) + enc_mapping(ms.last())
    }
}

pub open spec fn enc_function(f: (u16, Seq<CodeMapping>)) -> Seq<u8> {
    le_u16(f.0) + uleb(f.1.len()) + enc_mappings(f.1)
}

pub open spec fn enc_functions(fs: TableModel) -> Seq<u8>
    decreases fs.len(),
{
    if fs.len() == 0 {
        Seq::empty()
    } else {
        enc_functions(fs.drop_last()) + enc_function(fs.last())
    }
}

/// The encoding of a table.
pub open spec fn encoding(t: TableModel) -> Seq<u8> {
    uleb(t.len()) + enc_functions(t)
}

/// Every length in the table is one that the encoding admits.
pub open spec fn lengths_admitted(t: TableModel) -> bool {
    &&& t.len() <= MAX_SEQUENCE_LENGTH
    &&& forall|i: int| 0 <= i < t.len() ==> #[trigger] t[i].1.len() <= MAX_SEQUENCE_LENGTH
}

/// Reads a ULEB128 length at `pos`, `depth` bytes into it: at most five
/// bytes, no trailing zero byte, a value of at most `MAX_SEQUENCE_LENGTH`.
pub open spec fn parse_uleb(b: Seq<u8>, pos: int, depth: int) -> Option<(nat, int)>
    decreases 5 - depth,
{
    if depth >= 5 || depth < 0 || pos < 0 || pos >= b.len() {
        None
    } else if b[pos] < 128 {
        if depth > 0 && b[pos] == 0 {
            None
        } else {
            Some((b[pos] as nat, pos + 1))
        }
    } else {
        match parse_uleb(b, pos + 1, depth + 1) {
            None => None,
            Some((rest, p)) => {
                let v = (b[pos] - 128) + 128 * rest;
                if v > MAX_SEQUENCE_LENGTH {
                    None
                } else {
                    Some((v as nat, p))
                }
            },
        }
    }
}

pub open spec fn parse_u16(b: Seq<u8>, pos: int) -> Option<(u16, int)> {
    if 0 <= pos && pos + 2 <= b.len() {
        Some(((b[pos] + 256 * b[pos + 1]) as u16, pos + 2))
    } else {
        None
    }
}

pub open spec fn parse_u32(b: Seq<u8>, pos: int) -> Option<(u32, int)> {
    match parse_u16(b, pos) {
        None => None,
        Some((lo, p)) => match parse_u16(b, p) {
            None => None,
            Some((hi, q)) => Some(((lo + 65536 * hi) as u32, q)),
        },
    }
}

pub open spec fn parse_mapping(b: Seq<u8>, pos: int) -> Option<(CodeMapping, int)> {
    match parse_u16(b, pos) {
        None => None,
        Some((offset, p1)) => match parse_u32(b, p1) {
            None => None,
            Some((start, p2)) => match parse_u32(b, p2) {
                None => None,
                Some((end, p3)) => Some((CodeMapping { offset, span: ByteSpan { start, end } }, p3)),
            },
        },
    }
}

pub open spec fn parse_mappings(b: Seq<u8>, pos: int, n: nat) -> Option<(Seq<CodeMapping>, int)>
    decreases n,
{
    if n == 0 {
        Some((Seq::empty(), pos))
    } else {
        match parse_mappings(b, pos, (n - 1) as nat) {
            None => None,
            Some((ms, p)) => match parse_mapping(b, p) {
                None => None,
                Some((m, q)) => Some((ms.push(m), q)),
            },
        }
    }
}

pub open spec fn parse_function(b: Seq<u8>, pos: int) -> Option<((u16, Seq<CodeMapping>), int)> {
    match parse_u16(b, pos) {
        None => None,
        Some((fdef, p1)) => match parse_uleb(b, p1, 0) {
            None => None,
            Some((n, p2)) => match parse_mappings(b, p2, n) {
                None => None,
                Some((ms, p3)) => Some(((fdef, ms), p3)),
            },
        },
    }
}

pub open spec fn parse_functions(b: Seq<u8>, pos: int, n: nat) -> Option<(TableModel, int)>
    decreases n,
{
    if n == 0 {
        Some((Seq::empty(), pos))
    } else {
        match parse_functions(b, pos, (n - 1) as nat) {
            None => None,
            Some((fs, p)) => match parse_function(b, p) {
                None => None,
                Some((f, q)) => Some((fs.push(f), q)),
            },
        }
    }
}

/// The table that `b` encodes, with no byte left over.
pub open spec fn spec_decode(b: Seq<u8>) -> Option<TableModel> {
    match parse_uleb(b, 0, 0) {
        None => None,
        Some((n, p)) => match parse_functions(b, p, n) {
            None => None,
            Some((fs, q)) => if q == b.len() {
                Some(fs)
            } else {
                None
            },
        },
    }
}

/// The bytes are not the encoding of a table.
#[derive(Clone, Copy, Debug, PartialEq, Eq)]
pub struct MalformedError;

pub open spec fn fns_model(fs: Seq<FunctionSourceMap>) -> TableModel {
    fs.map_values(|f: FunctionSourceMap| (f.fdef_idx, f.code_map@))
}

fn read_uleb(b: &[u8], pos: usize, depth: usize) -> (r: Option<(u64, usize)>)
    ensures
        r is None <==> parse_uleb(b@, pos as int, depth as int) is None,
        r matches Some((v, p)) ==> parse_uleb(b@, pos as int, depth as int) == Some(
            (v as nat, p as int),
        ) && v <= MAX_SEQUENCE_LENGTH && pos < p <= b@.len(),
    decreases 5 - depth,
{
    if depth >= 5 || pos >= b.len() {
        return None;
    }
    let byte = b[pos];
    if byte < 128 {
        if depth > 0 && byte == 0 {
            None
        } else {
            Some((byte as u64, pos + 1))
        }
    } else {
        match read_uleb(b, pos + 1, depth + 1) {
            None => None,
            Some((rest, p)) => {
                let v = (byte - 128) as u64 + 128 * rest;
                if v > MAX_SEQUENCE_LENGTH {
                    None
                } else {
                    Some((v, p))
                }
            },
        }
    }
}

fn read_u16(b: &[u8], pos: usize) -> (r: Option<(u16, usize)>)
    ensures
        r is None <==> parse_u16(b@, pos as int) is None,
        r matches Some((v, p)) ==> parse_u16(b@, pos as int) == Some((v, p as int)) && p
            <= b@.len(),
{
    if b.len() < 2 || pos > b.len() - 2 {
        None
    } else {
        Some((b[pos] as u16 + 256 * (b[pos + 1] as u16), pos + 2))
    }
}

fn read_u32(b: &[u8], pos: usize) -> (r: Option<(u32, usize)>)
    ensures
        r is None <==> parse_u32(b@, pos as int) is None,
        r matches Some((v, p)) ==> parse_u32(b@, pos as int) == Some((v, p as int)) && p
            <= b@.len(),
{
    match read_u16(b, pos) {
        None => None,
        Some((lo, p)) => match read_u16(b, p) {
            None => None,
            Some((hi, q)) => Some((lo as u32 + 65536 * (hi as u32), q)),
        },
    }
}

fn read_mapping(b: &[u8], pos: usize) -> (r: Option<(CodeMapping, usize)>)
    ensures
        r is None <==> parse_mapping(b@, pos as int) is None,
        r matches Some((m, p)) ==> parse_mapping(b@, pos as int) == Some((m, p as int)) && p
            <= b@.len(),
{
    match read_u16(b, pos) {
        None => None,
        Some((offset, p1)) => match read_u32(b, p1) {
            None => None,
            Some((start, p2)) => match read_u32(b, p2) {
                None => None,
                Some((end, p3)) => Some((CodeMapping { offset, span: ByteSpan { start, end } }, p3)),
            },
        },
    }
}

fn read_function(b: &[u8], pos: usize) -> (r: Option<(FunctionSourceMap, usize)>)
    ensures
        r is None <==> parse_function(b@, pos as int) is None,
        r matches Some((f, p)) ==> parse_function(b@, pos as int) == Some(
            ((f.fdef_idx, f.code_map@), p as int),
        ) && p <= b@.len(),
{
    let (fdef_idx, p1) = match read_u16(b, pos) {
        None => return None,
        Some(x) => x,
    };
    let (n, p2) = match read_uleb(b, p1, 0) {
        None => return None,
        Some(x) => x,
    };
    let mut code_map: Vec<CodeMapping> = Vec::new();
    let mut p = p2;
    let mut k: u64 = 0;
    while k < n
        invariant
            k <= n,
            p <= b@.len(),
            parse_mappings(b@, p2 as int, k as nat) == Some((code_map@, p as int)),
            parse_u16(b@, pos as int) == Some((fdef_idx, p1 as int)),
            parse_uleb(b@, p1 as int, 0) == Some((n as nat, p2 as int)),
        decreases n - k,
    {
        match read_mapping(b, p) {
            None => {
                proof {
                    assert(parse_mappings(b@, p2 as int, (k + 1) as nat) is None);
                    lemma_parse_mappings_stuck(b@, p2 as int, (k + 1) as nat, n as nat);
                }
                return None;
            },
            Some((m, q)) => {
                code_map.push(m);
                p = q;
            },
        }
        k = k + 1;
    }
    Some((FunctionSourceMap { fdef_idx, code_map }, p))
}

proof fn lemma_parse_mappings_stuck(b: Seq<u8>, pos: int, k: nat, n: nat)
    requires
        parse_mappings(b, pos, k) is None,
        k <= n,
    ensures
        parse_mappings(b, pos, n) is None,
    decreases n - k,
{
    if k < n {
        lemma_parse_mappings_stuck(b, pos, k + 1, n);
    }
}

proof fn lemma_parse_functions_stuck(b: Seq<u8>, pos: int, k: nat, n: nat)
    requires
        parse_functions(b, pos, k) is None,
        k <= n,
    ensures
        parse_functions(b, pos, n) is None,
    decreases n - k,
{
    if k < n {
        lemma_parse_functions_stuck(b, pos, k + 1, n);
    }
}

/// Decodes a table from its encoding; fails on anything else, trailing
/// bytes included.
pub fn decode(b: &[u8]) -> (r: Result<SourceMapTable, MalformedError>)
    ensures
        r is Err <==> spec_decode(b@) is None,
        r matches Ok(t) ==> spec_decode(b@) == Some(t@) && encoding(t@) == b@ && lengths_admitted(
            t@,
        ),
        forall|t: TableModel|
            lengths_admitted(t) && #[trigger] encoding(t) == b@ ==> (r matches Ok(d) && d@ == t),
{
    let r = decode_parse(b);
    proof {
        assert forall|t: TableModel| lengths_admitted(t) && #[trigger] encoding(t) == b@ implies (r matches Ok(d) && d@ == t) by {
            lemma_decode_complete(t);
        }
        if spec_decode(b@) is Some {
            lemma_decode_sound(b@);
        }
    }
    r
}

fn decode_parse(b: &[u8]) -> (r: Result<SourceMapTable, MalformedError>)
    ensures
        r is Err <==> spec_decode(b@) is None,
        r matches Ok(t) ==> spec_decode(b@) == Some(t@),
{
    let (n, p0) = match read_uleb(b, 0, 0) {
        None => return Err(MalformedError),
        Some(x) => x,
    };
    let mut functions: Vec<FunctionSourceMap> = Vec::new();
    let mut p = p0;
    let mut k: u64 = 0;
    while k < n
        invariant
            k <= n,
            p <= b@.len(),
            parse_functions(b@, p0 as int, k as nat) == Some((fns_model(functions@), p as int)),
            parse_uleb(b@, 0, 0) == Some((n as nat, p0 as int)),
        decreases n - k,
    {
        match read_function(b, p) {
            None => {
                proof {
                    assert(parse_functions(b@, p0 as int, (k + 1) as nat) is None);
                    lemma_parse_functions_stuck(b@, p0 as int, (k + 1) as nat, n as nat);
                }
                return Err(MalformedError);
            },
            Some((f, q)) => {
                let ghost before = functions@;
                functions.push(f);
                assert(fns_model(functions@) =~= fns_model(before).push((f.fdef_idx, f.code_map@)));
                p = q;
            },
        }
        k = k + 1;
    }
    if p != b.len() {
        return Err(MalformedError);
    }
    let t = SourceMapTable { functions };
    assert(t@ =~= fns_model(t.functions@));
    Ok(t)
}

fn write_uleb(out: &mut Vec<u8>, n: usize)
    ensures
        final(out)@ == old(out)@ + uleb(n as nat),
{
    let mut v = n;
    while v >= 128
        invariant
            out@ + uleb(v as nat) == old(out)@ + uleb(n as nat),
        decreases v,
    {
        let ghost before = out@;
        out.push((v % 128 + 128) as u8);
        assert(uleb(v as nat) == seq![(v % 128 + 128) as u8] + uleb((v / 128) as nat));
        assert(before + uleb(v as nat) =~= out@ + uleb((v / 128) as nat));
        v = v / 128;
    }
    let ghost before = out@;
    out.push(v as u8);
    assert(out@ =~= before + uleb(v as nat));
}

fn write_u16(out: &mut Vec<u8>, x: u16)
    ensures
        final(out)@ == old(out)@ + le_u16(x),
{
    out.push((x % 256) as u8);
    out.push((x / 256) as u8);
    assert(out@ =~= old(out)@ + le_u16(x));
}

fn write_u32(out: &mut Vec<u8>, x: u32)
    ensures
        final(out)@ == old(out)@ + le_u32(x),
{
    write_u16(out, (x % 65536) as u16);
    write_u16(out, (x / 65536) as u16);
    assert(out@ =~= old(out)@ + le_u32(x));
}

impl SourceMapTable {
    /// The encoding of the table.
    pub fn encode(&self) -> (r: Vec<u8>)
        ensures
            r@ == encoding(self@),
            lengths_admitted(self@) ==> spec_decode(r@) == Some(self@),
    {
        let mut out: Vec<u8> = Vec::new();
        let n = self.functions.len();
        write_uleb(&mut out, n);
        let mut i: usize = 0;
        assert(self@.subrange(0, 0) =~= Seq::<(u16, Seq<CodeMapping>)>::empty());
        while i < n
            invariant
                n == self@.len(),
                i <= n,
                out@ == uleb(n as nat) + enc_functions(self@.subrange(0, i as int)),
            decreases n - i,
        {
            let f = &self.functions[i];
            let ghost before = out@;
            write_u16(&mut out, f.fdef_idx);
            let m = f.code_map.len();
            write_uleb(&mut out, m);
            let mut j: usize = 0;
            assert(f.code_map@.subrange(0, 0) =~= Seq::<CodeMapping>::empty());
            while j < m
                invariant
                    m == f.code_map@.len(),
                    j <= m,
                    out@ == before + le_u16(f.fdef_idx) + uleb(m as nat) + enc_mappings(
                        f.code_map@.subrange(0, j as int),
                    ),
                decreases m - j,
            {
                let c = f.code_map[j];
                write_u16(&mut out, c.offset);
                write_u32(&mut out, c.span.start);
                write_u32(&mut out, c.span.end);
                assert(f.code_map@.subrange(0, j + 1).drop_last() =~= f.code_map@.subrange(
                    0,
                    j as int,
                ));
                assert(out@ =~= before + le_u16(f.fdef_idx) + uleb(m as nat) + enc_mappings(
                    f.code_map@.subrange(0, j + 1),
                ));
                j = j + 1;
            }
            assert(f.code_map@.subrange(0, m as int) =~= f.code_map@);
            assert(self@[i as int] == (f.fdef_idx, f.code_map@));
            assert(self@.subrange(0, i + 1).drop_last() =~= self@.subrange(0, i as int));
            assert(out@ =~= uleb(n as nat) + enc_functions(self@.subrange(0, i + 1)));
            i = i + 1;
        }
        assert(self@.subrange(0, n as int) =~= self@);
        proof {
            if lengths_admitted(self@) {
                lemma_decode_complete(self@);
            }
        }
        out
    }
}

/// How many bytes at most ULEB128 of `n` takes.
pub open spec fn uleb_fits(n: nat, k: int) -> bool
    decreases n,
{
    if n < 128 {
        k >= 1
    } else {
        k >= 1 && uleb_fits(n / 128, k - 1)
    }
}

proof fn lemma_uleb_fits(n: nat)
    requires
        n <= MAX_SEQUENCE_LENGTH,
    ensures
        uleb_fits(n, 5),
{
    let n1 = n / 128;
    let n2 = n1 / 128;
    let n3 = n2 / 128;
    let n4 = n3 / 128;
    assert(n4 < 128);
    assert(uleb_fits(n4, 1));
    assert(uleb_fits(n3, 2));
    assert(uleb_fits(n2, 3));
    assert(uleb_fits(n1, 4));
}

proof fn lemma_uleb_sound(b: Seq<u8>, pos: int, depth: int)
    requires
        parse_uleb(b, pos, depth) is Some,
    ensures
        parse_uleb(b, pos, depth) matches Some((v, p)) && pos < p <= b.len() && b.subrange(pos, p)
            == uleb(v) && (depth > 0 ==> v >= 1) && v <= MAX_SEQUENCE_LENGTH,
    decreases 5 - depth,
{
    if b[pos] >= 128 {
        lemma_uleb_sound(b, pos + 1, depth + 1);
        let (rest, p) = parse_uleb(b, pos + 1, depth + 1).unwrap();
        let v = ((b[pos] - 128) + 128 * rest) as nat;
        assert(v % 128 == b[pos] - 128);
        assert(v / 128 == rest);
        assert(b.subrange(pos, p) =~= seq![b[pos]] + b.subrange(pos + 1, p));
    } else {
        assert(b.subrange(pos, pos + 1) =~= seq![b[pos]]);
    }
}

proof fn lemma_uleb_complete(b: Seq<u8>, pos: int, depth: int, n: nat)
    requires
        0 <= depth,
        0 <= pos,
        pos + uleb(n).len() <= b.len(),
        b.subrange(pos, pos + uleb(n).len()) == uleb(n),
        n <= MAX_SEQUENCE_LENGTH,
        uleb_fits(n, 5 - depth),
        depth > 0 ==> n >= 1,
    ensures
        parse_uleb(b, pos, depth) == Some((n, pos + uleb(n).len())),
    decreases n,
{
    assert(b[pos] == b.subrange(pos, pos + uleb(n).len())[0]);
    if n >= 128 {
        let rest = n / 128;
        let tail = uleb(rest);
        assert(uleb(n) == seq![(n % 128 + 128) as u8] + tail);
        assert(b.subrange(pos + 1, pos + 1 + tail.len()) =~= b.subrange(pos, pos + uleb(n).len()).subrange(1, 1 + tail.len() as int));
        assert(uleb(n).subrange(1, 1 + tail.len() as int) =~= tail);
        lemma_uleb_complete(b, pos + 1, depth + 1, rest);
    }
}

proof fn lemma_u16_sound(b: Seq<u8>, pos: int)
    requires
        parse_u16(b, pos) is Some,
    ensures
        parse_u16(b, pos) matches Some((v, p)) && p == pos + 2 && b.subrange(pos, p) == le_u16(v),
{
    let v = (b[pos] + 256 * b[pos + 1]) as u16;
    assert(v % 256 == b[pos]);
    assert(v / 256 == b[pos + 1]);
    assert(b.subrange(pos, pos + 2) =~= le_u16(v));
}

proof fn lemma_u16_complete(b: Seq<u8>, pos: int, x: u16)
    requires
        0 <= pos,
        pos + 2 <= b.len(),
        b.subrange(pos, pos + 2) == le_u16(x),
    ensures
        parse_u16(b, pos) == Some((x, pos + 2)),
{
    assert(b[pos] == b.subrange(pos, pos + 2)[0]);
    assert(b[pos + 1] == b.subrange(pos, pos + 2)[1]);
}

proof fn lemma_u32_sound(b: Seq<u8>, pos: int)
    requires
        parse_u32(b, pos) is Some,
    ensures
        parse_u32(b, pos) matches Some((v, p)) && p == pos + 4 && b.subrange(pos, p) == le_u32(v),
{
    lemma_u16_sound(b, pos);
    lemma_u16_sound(b, pos + 2);
    let (lo, _) = parse_u16(b, pos).unwrap();
    let (hi, _) = parse_u16(b, pos + 2).unwrap();
    let v = (lo + 65536 * hi) as u32;
    assert(v % 65536 == lo);
    assert(v / 65536 == hi);
    assert(b.subrange(pos, pos + 4) =~= b.subrange(pos, pos + 2) + b.subrange(pos + 2, pos + 4));
}

proof fn lemma_u32_complete(b: Seq<u8>, pos: int, x: u32)
    requires
        0 <= pos,
        pos + 4 <= b.len(),
        b.subrange(pos, pos + 4) == le_u32(x),
    ensures
        parse_u32(b, pos) == Some((x, pos + 4)),
{
    let e = le_u32(x);
    assert(b.subrange(pos, pos + 2) =~= e.subrange(0, 2));
    assert(b.subrange(pos + 2, pos + 4) =~= e.subrange(2, 4));
    assert(e.subrange(0, 2) =~= le_u16((x % 65536) as u16));
    assert(e.subrange(2, 4) =~= le_u16((x / 65536) as u16));
    lemma_u16_complete(b, pos, (x % 65536) as u16);
    lemma_u16_complete(b, pos + 2, (x / 65536) as u16);
}

proof fn lemma_mapping_sound(b: Seq<u8>, pos: int)
    requires
        parse_mapping(b, pos) is Some,
    ensures
        parse_mapping(b, pos) matches Some((m, p)) && p == pos + 10 && b.subrange(pos, p)
            == enc_mapping(m),
{
    lemma_u16_sound(b, pos);
    lemma_u32_sound(b, pos + 2);
    lemma_u32_sound(b, pos + 6);
    assert(b.subrange(pos, pos + 10) =~= b.subrange(pos, pos + 2) + b.subrange(pos + 2, pos + 6)
        + b.subrange(pos + 6, pos + 10));
}

proof fn lemma_mapping_complete(b: Seq<u8>, pos: int, m: CodeMapping)
    requires
        0 <= pos,
        pos + 10 <= b.len(),
        b.subrange(pos, pos + 10) == enc_mapping(m),
    ensures
        parse_mapping(b, pos) == Some((m, pos + 10)),
{
    let e = enc_mapping(m);
    assert(b.subrange(pos, pos + 2) =~= e.subrange(0, 2));
    assert(b.subrange(pos + 2, pos + 6) =~= e.subrange(2, 6));
    assert(b.subrange(pos + 6, pos + 10) =~= e.subrange(6, 10));
    assert(e.subrange(0, 2) =~= le_u16(m.offset));
    assert(e.subrange(2, 6) =~= le_u32(m.span.start));
    assert(e.subrange(6, 10) =~= le_u32(m.span.end));
    lemma_u16_complete(b, pos, m.offset);
    lemma_u32_complete(b, pos + 2, m.span.start);
    lemma_u32_complete(b, pos + 6, m.span.end);
}

proof fn lemma_mappings_sound(b: Seq<u8>, pos: int, n: nat)
    requires
        0 <= pos <= b.len(),
        parse_mappings(b, pos, n) is Some,
    ensures
        parse_mappings(b, pos, n) matches Some((ms, p)) && pos <= p <= b.len() && ms.len() == n
            && b.subrange(pos, p) == enc_mappings(ms),
    decreases n,
{
    if n == 0 {
        assert(b.subrange(pos, pos) =~= Seq::<u8>::empty());
    } else {
        lemma_mappings_sound(b, pos, (n - 1) as nat);
        let (ms, p) = parse_mappings(b, pos, (n - 1) as nat).unwrap();
        lemma_mapping_sound(b, p);
        let (m, q) = parse_mapping(b, p).unwrap();
        assert(ms.push(m).drop_last() =~= ms);
        assert(b.subrange(pos, q) =~= b.subrange(pos, p) + b.subrange(p, q));
    }
}

proof fn lemma_enc_mappings_len(ms: Seq<CodeMapping>)
    ensures
        enc_mappings(ms).len() == 10 * ms.len(),
    decreases ms.len(),
{
    if ms.len() > 0 {
        lemma_enc_mappings_len(ms.drop_last());
    }
}

proof fn lemma_mappings_complete(b: Seq<u8>, pos: int, ms: Seq<CodeMapping>)
    requires
        0 <= pos,
        pos + enc_mappings(ms).len() <= b.len(),
        b.subrange(pos, pos + enc_mappings(ms).len()) == enc_mappings(ms),
    ensures
        parse_mappings(b, pos, ms.len()) == Some((ms, pos + enc_mappings(ms).len())),
    decreases ms.len(),
{
    if ms.len() > 0 {
        let d = ms.drop_last();
        let e = enc_mappings(ms);
        let ed = enc_mappings(d);
        lemma_enc_mappings_len(ms);
        lemma_enc_mappings_len(d);
        assert(b.subrange(pos, pos + ed.len()) =~= e.subrange(0, ed.len() as int));
        assert(e.subrange(0, ed.len() as int) =~= ed);
        lemma_mappings_complete(b, pos, d);
        let p = pos + ed.len();
        assert(b.subrange(p, p + 10) =~= e.subrange(ed.len() as int, e.len() as int));
        assert(e.subrange(ed.len() as int, e.len() as int) =~= enc_mapping(ms.last()));
        lemma_mapping_complete(b, p, ms.last());
        assert(d.push(ms.last()) =~= ms);
    }
}

proof fn lemma_function_sound(b: Seq<u8>, pos: int)
    requires
        0 <= pos,
        parse_function(b, pos) is Some,
    ensures
        parse_function(b, pos) matches Some((f, p)) && pos <= p <= b.len() && f.1.len()
            <= MAX_SEQUENCE_LENGTH && b.subrange(pos, p) == enc_function(f),
{
    lemma_u16_sound(b, pos);
    let (fdef, p1) = parse_u16(b, pos).unwrap();
    lemma_uleb_sound(b, p1, 0);
    let (n, p2) = parse_uleb(b, p1, 0).unwrap();
    lemma_mappings_sound(b, p2, n);
    let (ms, p3) = parse_mappings(b, p2, n).unwrap();
    assert(b.subrange(pos, p3) =~= b.subrange(pos, p1) + b.subrange(p1, p2) + b.subrange(p2, p3));
}

proof fn lemma_function_complete(b: Seq<u8>, pos: int, f: (u16, Seq<CodeMapping>))
    requires
        0 <= pos,
        f.1.len() <= MAX_SEQUENCE_LENGTH,
        pos + enc_function(f).len() <= b.len(),
        b.subrange(pos, pos + enc_function(f).len()) == enc_function(f),
    ensures
        parse_function(b, pos) == Some((f, pos + enc_function(f).len())),
{
    let e = enc_function(f);
    let u = uleb(f.1.len());
    let em = enc_mappings(f.1);
    assert(b.subrange(pos, pos + 2) =~= e.subrange(0, 2));
    assert(e.subrange(0, 2) =~= le_u16(f.0));
    lemma_u16_complete(b, pos, f.0);
    assert(b.subrange(pos + 2, pos + 2 + u.len()) =~= e.subrange(2, 2 + u.len() as int));
    assert(e.subrange(2, 2 + u.len() as int) =~= u);
    lemma_uleb_fits(f.1.len());
    lemma_uleb_complete(b, pos + 2, 0, f.1.len());
    let p2 = pos + 2 + u.len();
    assert(b.subrange(p2, p2 + em.len()) =~= e.subrange(2 + u.len() as int, e.len() as int));
    assert(e.subrange(2 + u.len() as int, e.len() as int) =~= em);
    lemma_mappings_complete(b, p2, f.1);
}

proof fn lemma_functions_sound(b: Seq<u8>, pos: int, n: nat)
    requires
        0 <= pos <= b.len(),
        parse_functions(b, pos, n) is Some,
    ensures
        parse_functions(b, pos, n) matches Some((fs, p)) && pos <= p <= b.len() && fs.len() == n
            && (forall|i: int| 0 <= i < fs.len() ==> #[trigger] fs[i].1.len() <= MAX_SEQUENCE_LENGTH)
            && b.subrange(pos, p) == enc_functions(fs),
    decreases n,
{
    if n == 0 {
        assert(b.subrange(pos, pos) =~= Seq::<u8>::empty());
    } else {
        lemma_functions_sound(b, pos, (n - 1) as nat);
        let (fs, p) = parse_functions(b, pos, (n - 1) as nat).unwrap();
        lemma_function_sound(b, p);
        let (f, q) = parse_function(b, p).unwrap();
        assert(fs.push(f).drop_last() =~= fs);
        assert(b.subrange(pos, q) =~= b.subrange(pos, p) + b.subrange(p, q));
    }
}

proof fn lemma_functions_complete(b: Seq<u8>, pos: int, fs: TableModel)
    requires
        0 <= pos,
        forall|i: int| 0 <= i < fs.len() ==> #[trigger] fs[i].1.len() <= MAX_SEQUENCE_LENGTH,
        pos + enc_functions(fs).len() <= b.len(),
        b.subrange(pos, pos + enc_functions(fs).len()) == enc_functions(fs),
    ensures
        parse_functions(b, pos, fs.len()) == Some((fs, pos + enc_functions(fs).len())),
    decreases fs.len(),
{
    if fs.len() > 0 {
        let d = fs.drop_last();
        let e = enc_functions(fs);
        let ed = enc_functions(d);
        let ef = enc_function(fs.last());
        assert(e == ed + ef);
        assert(b.subrange(pos, pos + ed.len()) =~= e.subrange(0, ed.len() as int));
        assert(e.subrange(0, ed.len() as int) =~= ed);
        assert forall|i: int| 0 <= i < d.len() implies #[trigger] d[i].1.len()
            <= MAX_SEQUENCE_LENGTH by {
            assert(d[i] == fs[i]);
        }
        lemma_functions_complete(b, pos, d);
        let p = pos + ed.len();
        assert(b.subrange(p, p + ef.len()) =~= e.subrange(ed.len() as int, e.len() as int));
        assert(e.subrange(ed.len() as int, e.len() as int) =~= ef);
        assert(fs.last() == fs[fs.len() - 1]);
        lemma_function_complete(b, p, fs.last());
        assert(d.push(fs.last()) =~= fs);
    }
}

/// Whatever decodes is the encoding of what it decodes to.
pub proof fn lemma_decode_sound(b: Seq<u8>)
    requires
        spec_decode(b) is Some,
    ensures
        spec_decode(b) matches Some(t) && encoding(t) == b && lengths_admitted(t),
{
    lemma_uleb_sound(b, 0, 0);
    let (n, p) = parse_uleb(b, 0, 0).unwrap();
    lemma_functions_sound(b, p, n);
    let (fs, q) = parse_functions(b, p, n).unwrap();
    assert(b =~= b.subrange(0, p) + b.subrange(p, q));
}

/// The encoding of a table whose lengths the encoding admits decodes to
/// that table.
pub proof fn lemma_decode_complete(t: TableModel)
    requires
        lengths_admitted(t),
    ensures
        spec_decode(encoding(t)) == Some(t),
{
    let b = encoding(t);
    let u = uleb(t.len());
    assert(b.subrange(0, u.len() as int) =~= u);
    lemma_uleb_fits(t.len());
    lemma_uleb_complete(b, 0, 0, t.len());
    assert(b.subrange(u.len() as int, b.len() as int) =~= enc_functions(t));
    lemma_functions_complete(b, u.len() as int, t);
}

/// Decoding and then encoding again gives back the same bytes, and decoding
/// those gives the same table: every lookup in it is unchanged.
pub proof fn lemma_round_trip(b: Seq<u8>)
    requires
        spec_decode(b) is Some,
    ensures
        spec_decode(b) matches Some(t) && encoding(t) == b && spec_decode(encoding(t)) == Some(t),
{
    lemma_decode_sound(b);
    let t = spec_decode(b).unwrap();
    lemma_decode_complete(t);
}

} // verus!

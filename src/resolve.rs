//! Resolution of a frame's (function definition, code offset) pair into a
//! span of lines and columns of the module's source text.

use vstd::prelude::*;
use vstd::slice::slice_subrange;
use vstd::string::StringSliceAdditionalSpecFns;
use vstd::utf8::encode_utf8;
use crate::codec::{decode, spec_decode};
use crate::external::{gunzip, gunzip_of, hex_decode, hex_decoded, utf8_string};
use crate::line_col::{lemma_line_col_ordered, pos_le, spec_to_line_col, to_line_col, LineIndex, Range};
use crate::source_map::{lemma_lookup_ordered, lookup, spans_ordered};

verus! {

/// A span of (line, column) positions.
pub type LineColModel = ((int, int), (int, int));

/// The positions that `r` holds.
pub open spec fn range_model(r: Range) -> LineColModel {
    ((r.start.line as int, r.start.column as int), (r.end.line as int, r.end.column as int))
}

/// The span of `source` that code offset `pc` of function definition
/// `fdef` comes from, given the binary source map `raw_map`; `None` when the
/// map does not decode, lacks the pair, or points outside the text.
pub open spec fn spec_locate_in_source(raw_map: Seq<u8>, source: Seq<u8>, fdef: u16, pc: u16) -> Option<
    LineColModel,
> {
    match spec_decode(raw_map) {
        None => None,
        Some(t) => match lookup(t, fdef, pc) {
            Err(_) => None,
            Ok(span) => spec_to_line_col(source, span),
        },
    }
}

/// Decodes the binary source map `raw_map`, looks up (`fdef`, `pc`) in it
/// and converts the span found into positions of `source`.
pub fn locate_in_source(raw_map: &[u8], source: &str, fdef: u16, pc: u16) -> (r: Option<Range>)
    ensures
        r is Some <==> spec_locate_in_source(raw_map@, source.spec_bytes(), fdef, pc) is Some,
        r matches Some(range) ==> spec_locate_in_source(raw_map@, source.spec_bytes(), fdef, pc)
            == Some(range_model(range)),
{
    let table = match decode(raw_map) {
        Err(_) => return None,
        Ok(t) => t,
    };
    let span = match table.locate(fdef, pc) {
        Err(_) => return None,
        Ok(s) => s,
    };
    let index = LineIndex::new(source);
    to_line_col(&index, source, span)
}

/// `s` without a leading `0x`.
pub open spec fn strip_hex_prefix(s: Seq<u8>) -> Seq<u8> {
    if s.len() >= 2 && s[0] == 48u8 && s[1] == 120u8 {
        s.subrange(2, s.len() as int)
    } else {
        s
    }
}

/// The span for (`fdef`, `pc`) given a source map as hexadecimal text, with
/// or without `0x`, and the source text; `None` when either is empty or any
/// step fails.
pub open spec fn spec_locate_hex(source_map: Seq<char>, source: Seq<char>, fdef: u16, pc: u16) -> Option<
    LineColModel,
> {
    if source_map.len() == 0 || source.len() == 0 {
        None
    } else {
        match hex_decoded(strip_hex_prefix(encode_utf8(source_map))) {
            None => None,
            Some(raw) => spec_locate_in_source(raw, encode_utf8(source), fdef, pc),
        }
    }
}

/// Resolves (`fdef`, `pc`) with a source map given as hexadecimal text.
pub fn locate_hex(source_map: &str, source: &str, fdef: u16, pc: u16) -> (r: Option<Range>)
    ensures
        r is Some <==> spec_locate_hex(source_map@, source@, fdef, pc) is Some,
        r matches Some(range) ==> spec_locate_hex(source_map@, source@, fdef, pc) == Some(
            range_model(range),
        ),
{
    if source_map.is_empty() || source.is_empty() {
        return None;
    }
    let b = source_map.as_bytes();
    let digits = if b.len() >= 2 && b[0] == 48u8 && b[1] == 120u8 {
        slice_subrange(b, 2, b.len())
    } else {
        b
    };
    let raw = match hex_decode(digits) {
        Err(_) => return None,
        Ok(v) => v,
    };
    locate_in_source(raw.as_slice(), source, fdef, pc)
}

/// The span for (`fdef`, `pc`) given a gzip-compressed binary source map
/// and a gzip-compressed source text; `None` when either is empty or any
/// step fails.
pub open spec fn spec_locate_zipped(source_map: Seq<u8>, source: Seq<u8>, fdef: u16, pc: u16) -> Option<
    LineColModel,
> {
    if source_map.len() == 0 || source.len() == 0 {
        None
    } else {
        match (gunzip_of(source_map), gunzip_of(source)) {
            (Some(raw), Some(text)) => if vstd::utf8::valid_utf8(text) {
                spec_locate_in_source(raw, text, fdef, pc)
            } else {
                None
            },
            _ => None,
        }
    }
}

/// Resolves (`fdef`, `pc`) with a compressed source map and source text.
pub fn locate_zipped(source_map: &[u8], source: &[u8], fdef: u16, pc: u16) -> (r: Option<Range>)
    ensures
        r is Some <==> spec_locate_zipped(source_map@, source@, fdef, pc) is Some,
        r matches Some(range) ==> spec_locate_zipped(source_map@, source@, fdef, pc) == Some(
            range_model(range),
        ),
{
    if source_map.len() == 0 || source.len() == 0 {
        return None;
    }
    let raw = match gunzip(source_map) {
        None => return None,
        Some(v) => v,
    };
    let text_bytes = match gunzip(source) {
        None => return None,
        Some(v) => v,
    };
    let text = match utf8_string(text_bytes) {
        None => return None,
        Some(s) => s,
    };
    locate_in_source(raw.as_slice(), text.as_str(), fdef, pc)
}

/// When the decoded table's spans are ordered, a located span of positions
/// starts no later than it ends (by line, then column).
pub proof fn lemma_located_span_ordered(raw_map: Seq<u8>, source: Seq<u8>, fdef: u16, pc: u16)
    requires
        spec_decode(raw_map) matches Some(t) && spans_ordered(t),
    ensures
        spec_locate_in_source(raw_map, source, fdef, pc) matches Some((p, q)) ==> pos_le(p, q),
{
    let t = spec_decode(raw_map).unwrap();
    lemma_lookup_ordered(t, fdef, pc);
    if let Ok(span) = lookup(t, fdef, pc) {
        lemma_line_col_ordered(source, span);
    }
}

} // verus!

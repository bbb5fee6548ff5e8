//! Splitting of module identifiers of the form `account::module`.

use vstd::prelude::*;
use vstd::string::StringSliceAdditionalSpecFns;
use vstd::utf8::{decode_utf8, encode_utf8, encode_utf8_decode_utf8};

verus! {

/// The separator `::` starts at position `i` of `s`.
pub open spec fn sep_at(s: Seq<char>, i: int) -> bool {
    0 <= i && i + 1 < s.len() && s[i] == ':' && s[i + 1] == ':'
}

/// Position of the first separator at or after `from`, or `s.len()` when
/// there is none.
pub open spec fn sep_from(s: Seq<char>, from: int) -> int
    decreases s.len() - from,
{
    if from < 0 || from + 1 >= s.len() {
        s.len() as int
    } else if sep_at(s, from) {
        from
    } else {
        sep_from(s, from + 1)
    }
}

/// The text before the first separator (the whole text when there is none).
pub open spec fn account_part(s: Seq<char>) -> Seq<char> {
    s.subrange(0, sep_from(s, 0))
}

/// The text between the first separator and the next one (or the end);
/// empty when there is no separator.
pub open spec fn module_part(s: Seq<char>) -> Seq<char> {
    let k = sep_from(s, 0);
    if k + 2 <= s.len() {
        s.subrange(k + 2, sep_from(s, k + 2))
    } else {
        Seq::empty()
    }
}

proof fn lemma_sep_from_bounds(s: Seq<char>, from: int)
    requires
        0 <= from,
    ensures
        from <= sep_from(s, from) <= s.len() || (from > s.len() && sep_from(s, from) == s.len()),
        sep_from(s, from) < s.len() ==> sep_at(s, sep_from(s, from)),
    decreases s.len() - from,
{
    if from + 1 < s.len() && !sep_at(s, from) {
        lemma_sep_from_bounds(s, from + 1);
    }
}

/// Position of the first separator at or after `from`, or the length.
fn find_sep(s: &str, len: usize, from: usize) -> (r: usize)
    requires
        len == s@.len(),
        from <= len,
    ensures
        r == sep_from(s@, from as int),
        from <= r <= len,
{
    if len == 0 {
        return 0;
    }
    let mut i = from;
    while i < len - 1
        invariant
            len == s@.len(),
            len > 0,
            from <= i <= len,
            sep_from(s@, i as int) == sep_from(s@, from as int),
        decreases len - i,
    {
        if s.get_char(i) == ':' && s.get_char(i + 1) == ':' {
            return i;
        }
        i = i + 1;
    }
    proof {
        lemma_sep_from_bounds(s@, from as int);
    }
    len
}

/// Splits a module identifier into its account and module name.
pub fn split_module_id(id: &str) -> (r: (String, String))
    ensures
        r.0@ == account_part(id@),
        r.1@ == module_part(id@),
{
    let len = id.unicode_len();
    let k = find_sep(id, len, 0);
    let account = id.substring_char(0, k).to_owned();
    if k < len && len - k >= 2 {
        let e = find_sep(id, len, k + 2);
        let module = id.substring_char(k + 2, e).to_owned();
        (account, module)
    } else {
        (account, String::new())
    }
}

/// Whether two texts are equal.
pub fn same_text(a: &str, b: &str) -> (r: bool)
    ensures
        r == (a@ == b@),
{
    let x = a.as_bytes();
    let y = b.as_bytes();
    proof {
        encode_utf8_decode_utf8(a@);
        encode_utf8_decode_utf8(b@);
    }
    if x.len() != y.len() {
        return false;
    }
    let n = x.len();
    let mut i: usize = 0;
    while i < n
        invariant
            n == x@.len(),
            n == y@.len(),
            x@ == a.spec_bytes(),
            y@ == b.spec_bytes(),
            i <= n,
            forall|j: int| 0 <= j < i ==> x@[j] == y@[j],
        decreases n - i,
    {
        if x[i] != y[i] {
            assert(x@ != y@);
            return false;
        }
        i = i + 1;
    }
    assert(x@ =~= y@);
    true
}

} // verus!

//! The `chain_id=endpoint,chain_id=endpoint` list that sets the remote
//! endpoint of each chain.

use vstd::prelude::*;
use std::collections::HashMap;

verus! {

broadcast use vstd::std_specs::hash::group_hash_axioms;

/// Position of the first `c` in `s` at or after `from`, or `s.len()`.
pub open spec fn char_from(s: Seq<char>, c: char, from: int) -> int
    decreases s.len() - from,
{
    if from < 0 || from >= s.len() {
        s.len() as int
    } else if s[from] == c {
        from
    } else {
        char_from(s, c, from + 1)
    }
}

/// The value of the decimal digits `d`.
pub open spec fn digits_value(d: Seq<char>) -> int
    decreases d.len(),
{
    if d.len() == 0 {
        0
    } else {
        10 * digits_value(d.drop_last()) + (d.last() as int - '0' as int)
    }
}

/// `d` is one or more decimal digits.
pub open spec fn all_digits(d: Seq<char>) -> bool {
    d.len() > 0 && forall|i: int| 0 <= i < d.len() ==> '0' <= #[trigger] d[i] <= '9'
}

/// A chain id: decimal digits, optionally after a `+`, of a value that fits
/// in `u16`.
pub open spec fn chain_id_of(s: Seq<char>) -> Option<u16> {
    let d = if s.len() > 0 && s[0] == '+' {
        s.drop_first()
    } else {
        s
    };
    if all_digits(d) && digits_value(d) <= u16::MAX {
        Some(digits_value(d) as u16)
    } else {
        None
    }
}

/// One entry: the chain id before the first `=`, and the endpoint up to the
/// next `=` or the end. `None` when there is no `=` or the id is not one.
pub open spec fn entry_of(e: Seq<char>) -> Option<(u16, Seq<char>)> {
    let k = char_from(e, '=', 0);
    if k >= e.len() {
        None
    } else {
        match chain_id_of(e.subrange(0, k)) {
            None => None,
            Some(id) => Some((id, e.subrange(k + 1, char_from(e, '=', k + 1)))),
        }
    }
}

/// The entries of the comma-separated list `s[from..]`, in order.
pub open spec fn entries_from(s: Seq<char>, from: int) -> Option<Seq<(u16, Seq<char>)>>
    decreases s.len() - from,
    via entries_from_decreases
{
    if from < 0 || from > s.len() {
        None
    } else {
        let k = char_from(s, ',', from);
        match entry_of(s.subrange(from, k)) {
            None => None,
            Some(e) => if k >= s.len() {
                Some(seq![e])
            } else {
                match entries_from(s, k + 1) {
                    None => None,
                    Some(rest) => Some(seq![e] + rest),
                }
            },
        }
    }
}

#[via_fn]
proof fn entries_from_decreases(s: Seq<char>, from: int) {
    if 0 <= from <= s.len() {
        lemma_char_from_bounds(s, ',', from);
    }
}

/// The map that inserting `es` in order gives: a later entry for a chain
/// replaces an earlier one.
pub open spec fn entries_map(es: Seq<(u16, Seq<char>)>) -> Map<u16, Seq<char>>
    decreases es.len(),
{
    if es.len() == 0 {
        Map::empty()
    } else {
        entries_map(es.drop_last()).insert(es.last().0, es.last().1)
    }
}

proof fn lemma_char_from_bounds(s: Seq<char>, c: char, from: int)
    requires
        0 <= from,
    ensures
        from <= s.len() ==> from <= char_from(s, c, from) <= s.len(),
        char_from(s, c, from) < s.len() ==> s[char_from(s, c, from)] == c,
    decreases s.len() - from,
{
    if from < s.len() && s[from] != c {
        lemma_char_from_bounds(s, c, from + 1);
    }
}

/// Position (in `s`) of the first `c` of `s[lo..hi]` at or after `start`,
/// or `hi`.
fn find_char_in(s: &str, c: char, lo: usize, start: usize, hi: usize) -> (r: usize)
    requires
        lo <= start <= hi <= s@.len(),
    ensures
        r - lo == char_from(s@.subrange(lo as int, hi as int), c, start - lo),
        start <= r <= hi,
{
    let ghost e = s@.subrange(lo as int, hi as int);
    let mut i = start;
    while i < hi
        invariant
            lo <= start <= i <= hi <= s@.len(),
            e == s@.subrange(lo as int, hi as int),
            char_from(e, c, i - lo) == char_from(e, c, start - lo),
        decreases hi - i,
    {
        if s.get_char(i) == c {
            assert(e[i - lo] == c);
            return i;
        }
        assert(e[i - lo] != c);
        i = i + 1;
    }
    i
}

/// Reads a chain id from `s[from..to]`.
fn parse_chain_id(s: &str, from: usize, to: usize) -> (r: Option<u16>)
    requires
        from <= to <= s@.len(),
    ensures
        r == chain_id_of(s@.subrange(from as int, to as int)),
{
    let ghost e = s@.subrange(from as int, to as int);
    let mut i = from;
    if i < to && s.get_char(i) == '+' {
        i = i + 1;
    }
    let ghost d = s@.subrange(i as int, to as int);
    assert(d =~= if e.len() > 0 && e[0] == '+' { e.drop_first() } else { e });
    if i == to {
        return None;
    }
    let start = i;
    let mut value: u32 = 0;
    while i < to
        invariant
            start <= i <= to <= s@.len(),
            d == s@.subrange(start as int, to as int),
            e == s@.subrange(from as int, to as int),
            d == (if e.len() > 0 && e[0] == '+' {
                e.drop_first()
            } else {
                e
            }),
            forall|j: int| start <= j < i ==> '0' <= #[trigger] s@[j] <= '9',
            value == digits_value(s@.subrange(start as int, i as int)),
            value <= u16::MAX,
        decreases to - i,
    {
        let c = s.get_char(i);
        if c < '0' || c > '9' {
            assert(d[i - start] == c);
            return None;
        }
        let ghost prev = s@.subrange(start as int, i as int);
        assert(s@.subrange(start as int, i + 1).drop_last() =~= prev);
        let next = 10 * value + (c as u32 - '0' as u32);
        if next > 65535 {
            proof {
                assert(s@.subrange(start as int, i + 1) =~= d.subrange(0, i + 1 - start));
                if all_digits(d) {
                    lemma_digits_grow(d, (i + 1 - start) as int);
                }
            }
            return None;
        }
        value = next;
        i = i + 1;
    }
    assert(s@.subrange(start as int, to as int) =~= d);
    Some(value as u16)
}

proof fn lemma_digits_grow(d: Seq<char>, k: int)
    requires
        0 <= k <= d.len(),
        forall|i: int| 0 <= i < d.len() ==> '0' <= #[trigger] d[i] <= '9',
    ensures
        digits_value(d.subrange(0, k)) <= digits_value(d),
        0 <= digits_value(d.subrange(0, k)),
    decreases d.len() - k,
{
    lemma_digits_nonneg(d.subrange(0, k));
    if k < d.len() {
        lemma_digits_grow(d, k + 1);
        assert(d.subrange(0, k + 1).drop_last() =~= d.subrange(0, k));
    } else {
        assert(d.subrange(0, k) =~= d);
    }
}

proof fn lemma_digits_nonneg(d: Seq<char>)
    requires
        forall|i: int| 0 <= i < d.len() ==> '0' <= #[trigger] d[i] <= '9',
    ensures
        0 <= digits_value(d),
    decreases d.len(),
{
    if d.len() > 0 {
        lemma_digits_nonneg(d.drop_last());
    }
}

/// Reads the entry `s[from..to]`.
fn parse_entry(s: &str, from: usize, to: usize) -> (r: Option<(u16, String)>)
    requires
        from <= to <= s@.len(),
    ensures
        r is None <==> entry_of(s@.subrange(from as int, to as int)) is None,
        r matches Some((id, endpoint)) ==> entry_of(s@.subrange(from as int, to as int)) == Some(
            (id, endpoint@),
        ),
{
    let ghost e = s@.subrange(from as int, to as int);
    let eq = find_char_in(s, '=', from, from, to);
    if eq >= to {
        return None;
    }
    let id = parse_chain_id(s, from, eq);
    assert(e.subrange(0, eq - from) =~= s@.subrange(from as int, eq as int));
    match id {
        None => None,
        Some(id) => {
            let end = find_char_in(s, '=', from, eq + 1, to);
            let endpoint = s.substring_char(eq + 1, end).to_owned();
            assert(e.subrange(eq - from + 1, end - from) =~= s@.subrange(eq + 1, end as int));
            Some((id, endpoint))
        },
    }
}

/// `o` with `acc` in front of what it holds.
pub open spec fn after(acc: Seq<(u16, Seq<char>)>, o: Option<Seq<(u16, Seq<char>)>>) -> Option<
    Seq<(u16, Seq<char>)>,
> {
    match o {
        None => None,
        Some(rest) => Some(acc + rest),
    }
}

/// `m` holds the texts of `expected`.
pub open spec fn holds_texts(m: Map<u16, String>, expected: Map<u16, Seq<char>>) -> bool {
    &&& m.dom() == expected.dom()
    &&& forall|k: u16| #[trigger] m.contains_key(k) ==> m[k]@ == expected[k]
}

/// Reads the endpoint of each chain from `chain_id=endpoint` entries
/// separated by commas; a later entry for a chain wins. `None` when an entry
/// has no `=` or its chain id is not a number that fits in `u16`.
pub fn parse_endpoint_map(s: &str) -> (r: Option<HashMap<u16, String>>)
    ensures
        r is Some <==> entries_from(s@, 0) is Some,
        r matches Some(m) ==> holds_texts(m@, entries_map(entries_from(s@, 0).unwrap())),
{
    let len = s.unicode_len();
    let mut map: HashMap<u16, String> = HashMap::new();
    let ghost mut acc: Seq<(u16, Seq<char>)> = Seq::empty();
    let mut from: usize = 0;
    assert(s@.subrange(0, len as int) =~= s@);
    assert(holds_texts(map@, entries_map(acc))) by {
        assert(map@.dom() =~= entries_map(acc).dom());
    }
    assert(acc + Seq::<(u16, Seq<char>)>::empty() =~= acc);
    loop
        invariant
            len == s@.len(),
            s@.subrange(0, len as int) == s@,
            from <= len,
            entries_from(s@, 0) == after(acc, entries_from(s@, from as int)),
            holds_texts(map@, entries_map(acc)),
        decreases len - from,
    {
        let k = find_char_in(s, ',', 0, from, len);
        let entry = parse_entry(s, from, k);
        match entry {
            None => {
                return None;
            },
            Some((id, endpoint)) => {
                let ghost e = (id, endpoint@);
                let ghost old_acc = acc;
                proof {
                    acc = acc.push(e);
                    assert(acc.drop_last() =~= old_acc);
                }
                map.insert(id, endpoint);
                assert(holds_texts(map@, entries_map(acc))) by {
                    assert(map@.dom() =~= entries_map(acc).dom());
                }
                if k >= len {
                    assert(entries_from(s@, from as int) == Some(seq![e]));
                    assert(old_acc + seq![e] =~= acc);
                    return Some(map);
                }
                proof {
                    let rest = entries_from(s@, k + 1);
                    if let Some(r) = rest {
                        assert(old_acc + (seq![e] + r) =~= acc + r);
                    }
                }
                from = k + 1;
            },
        }
    }
}

} // verus!

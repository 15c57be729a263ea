//! Character-sequence specifications and verified string primitives used by
//! the resolvers: lexicographic order, prefix/suffix tests, and splitting on
//! a separator character.

use vstd::prelude::*;
use vstd::string::*;

verus! {

/// Case-sensitive lexicographic order on character sequences, by code point;
/// a proper prefix sorts before its extensions.
pub open spec fn lex_le(a: Seq<char>, b: Seq<char>) -> bool
    decreases a.len(),
{
    if a.len() == 0 {
        true
    } else if b.len() == 0 {
        false
    } else if a[0] == b[0] {
        lex_le(a.drop_first(), b.drop_first())
    } else {
        (a[0] as u32) < (b[0] as u32)
    }
}

pub open spec fn is_prefix(p: Seq<char>, s: Seq<char>) -> bool {
    p.len() <= s.len() && p == s.subrange(0, p.len() as int)
}

pub open spec fn is_suffix(p: Seq<char>, s: Seq<char>) -> bool {
    p.len() <= s.len() && p == s.subrange(s.len() - p.len(), s.len() as int)
}

/// Index of the first occurrence of `c` in `s`, or `s.len()` if absent.
pub open spec fn first_index_of(s: Seq<char>, c: char) -> int
    decreases s.len(),
{
    if s.len() == 0 {
        0
    } else if s[0] == c {
        0
    } else {
        1 + first_index_of(s.drop_first(), c)
    }
}

/// The segments of `s` between occurrences of the separator `c`; always at
/// least one segment, and empty segments where separators touch.
pub open spec fn split_on(s: Seq<char>, c: char) -> Seq<Seq<char>>
    decreases s.len(),
{
    if s.len() == 0 {
        seq![Seq::<char>::empty()]
    } else if s[0] == c {
        seq![Seq::<char>::empty()] + split_on(s.drop_first(), c)
    } else {
        let rest = split_on(s.drop_first(), c);
        seq![seq![s[0]] + rest[0]] + rest.drop_first()
    }
}

pub proof fn lemma_lex_le_total(a: Seq<char>, b: Seq<char>)
    ensures
        lex_le(a, b) || lex_le(b, a),
    decreases a.len(),
{
    if a.len() != 0 && b.len() != 0 {
        if a[0] == b[0] {
            lemma_lex_le_total(a.drop_first(), b.drop_first());
        } else {
            assert((a[0] as u32) != (b[0] as u32)) by {
                vstd::utf8::char_u32_cast(a[0], a[0] as u32);
                vstd::utf8::char_u32_cast(b[0], b[0] as u32);
            }
        }
    }
}

pub proof fn lemma_lex_le_trans(a: Seq<char>, b: Seq<char>, c: Seq<char>)
    requires
        lex_le(a, b),
        lex_le(b, c),
    ensures
        lex_le(a, c),
    decreases a.len(),
{
    if a.len() != 0 && b.len() != 0 && c.len() != 0 && a[0] == b[0] && b[0] == c[0] {
        lemma_lex_le_trans(a.drop_first(), b.drop_first(), c.drop_first());
    }
}

pub proof fn lemma_first_index_bounds(s: Seq<char>, c: char)
    ensures
        0 <= first_index_of(s, c) <= s.len(),
        first_index_of(s, c) < s.len() ==> s[first_index_of(s, c)] == c,
        forall|j: int| 0 <= j < first_index_of(s, c) ==> s[j] != c,
        first_index_of(s, c) == s.len() ==> !s.contains(c),
    decreases s.len(),
{
    if s.len() != 0 && s[0] != c {
        lemma_first_index_bounds(s.drop_first(), c);
        assert forall|j: int| 0 <= j < first_index_of(s, c) implies s[j] != c by {
            if j > 0 {
                assert(s.drop_first()[j - 1] != c);
            }
        }
        if first_index_of(s, c) == s.len() && s.contains(c) {
            let w = choose|i: int| 0 <= i < s.len() && s[i] == c;
            assert(s.drop_first()[w - 1] == c);
            assert(s.drop_first().contains(c));
        }
    }
}

/// A `c` at position `i`, with none before it, pins the first occurrence.
pub proof fn lemma_first_index_at(s: Seq<char>, c: char, i: int)
    requires
        0 <= i < s.len(),
        s[i] == c,
        forall|j: int| 0 <= j < i ==> s[j] != c,
    ensures
        first_index_of(s, c) == i,
    decreases i,
{
    if i > 0 {
        assert forall|j: int| 0 <= j < i - 1 implies s.drop_first()[j] != c by {
            assert(s[j + 1] != c);
        }
        assert(s.drop_first()[i - 1] == c);
        lemma_first_index_at(s.drop_first(), c, i - 1);
    }
}

/// With no separator present, no split happens.
pub proof fn lemma_split_absent(s: Seq<char>, c: char)
    requires
        !s.contains(c),
    ensures
        split_on(s, c) == seq![s],
    decreases s.len(),
{
    if s.len() == 0 {
        assert(split_on(s, c) =~~= seq![s]);
    } else {
        assert(s[0] != c) by {
            if s[0] == c {
                assert(s.contains(c));
            }
        }
        assert(!s.drop_first().contains(c)) by {
            if s.drop_first().contains(c) {
                let w = choose|i: int| 0 <= i < s.drop_first().len() && s.drop_first()[i] == c;
                assert(s[w + 1] == c);
                assert(s.contains(c));
            }
        }
        lemma_split_absent(s.drop_first(), c);
        let rest = split_on(s.drop_first(), c);
        assert(rest == seq![s.drop_first()]);
        assert(rest[0] == s.drop_first());
        assert(seq![s[0]] + rest[0] =~= s);
        assert(rest.drop_first() =~= Seq::<Seq<char>>::empty());
        assert(split_on(s, c) =~~= seq![s]);
    }
}

/// Splitting starts with the separator-free part before the first separator.
pub proof fn lemma_split_step(a: Seq<char>, b: Seq<char>, c: char)
    requires
        !a.contains(c),
    ensures
        split_on(a + seq![c] + b, c) == seq![a] + split_on(b, c),
    decreases a.len(),
{
    let s = a + seq![c] + b;
    if a.len() == 0 {
        assert(s =~= seq![c] + b);
        assert(s[0] == c);
        assert(s.drop_first() =~= b);
        assert(split_on(s, c) =~~= seq![a] + split_on(b, c));
    } else {
        assert(a[0] != c) by {
            if a[0] == c {
                assert(a.contains(c));
            }
        }
        assert(s[0] == a[0]);
        assert(s.len() != 0);
        assert(!a.drop_first().contains(c)) by {
            if a.drop_first().contains(c) {
                let w = choose|i: int| 0 <= i < a.drop_first().len() && a.drop_first()[i] == c;
                assert(a[w + 1] == c);
                assert(a.contains(c));
            }
        }
        assert(s.drop_first() =~= a.drop_first() + seq![c] + b);
        lemma_split_step(a.drop_first(), b, c);
        let rest = split_on(s.drop_first(), c);
        assert(rest == seq![a.drop_first()] + split_on(b, c));
        assert(rest[0] == a.drop_first());
        assert(seq![s[0]] + rest[0] =~= a);
        assert(rest.drop_first() =~= split_on(b, c));
        assert(split_on(s, c) =~~= seq![a] + split_on(b, c));
    }
}

/// Character-for-character equality of two strings.
pub fn str_eq(a: &str, b: &str) -> (r: bool)
    ensures
        r == (a@ == b@),
{
    let alen = a.unicode_len();
    let blen = b.unicode_len();
    if alen != blen {
        return false;
    }
    let mut i: usize = 0;
    while i < alen
        invariant
            i <= alen,
            alen == a@.len(),
            alen == b@.len(),
            forall|j: int| 0 <= j < i ==> a@[j] == b@[j],
        decreases alen - i,
    {
        if a.get_char(i) != b.get_char(i) {
            return false;
        }
        i += 1;
    }
    proof {
        assert(a@ =~= b@);
    }
    true
}

/// Decides the lexicographic order `lex_le`.
pub fn str_le(a: &str, b: &str) -> (r: bool)
    ensures
        r == lex_le(a@, b@),
{
    let alen = a.unicode_len();
    let blen = b.unicode_len();
    let mut i: usize = 0;
    proof {
        assert(a@.skip(0) =~= a@);
        assert(b@.skip(0) =~= b@);
    }
    while i < alen && i < blen
        invariant
            i <= alen,
            i <= blen,
            alen == a@.len(),
            blen == b@.len(),
            lex_le(a@, b@) == lex_le(a@.skip(i as int), b@.skip(i as int)),
        decreases alen - i,
    {
        let ca = a.get_char(i);
        let cb = b.get_char(i);
        if ca != cb {
            proof {
                assert(a@.skip(i as int)[0] == ca);
                assert(b@.skip(i as int)[0] == cb);
            }
            return (ca as u32) < (cb as u32);
        }
        proof {
            assert(a@.skip(i as int)[0] == ca);
            assert(b@.skip(i as int)[0] == cb);
            assert(a@.skip(i as int).drop_first() =~= a@.skip(i + 1));
            assert(b@.skip(i as int).drop_first() =~= b@.skip(i + 1));
        }
        i += 1;
    }
    proof {
        assert(a@.skip(i as int).len() == alen - i);
        assert(b@.skip(i as int).len() == blen - i);
    }
    alen <= blen
}

/// Does `p` begin `s`?
pub fn has_prefix(s: &str, p: &str) -> (r: bool)
    ensures
        r == is_prefix(p@, s@),
{
    let plen = p.unicode_len();
    let slen = s.unicode_len();
    if plen > slen {
        return false;
    }
    let mut i: usize = 0;
    while i < plen
        invariant
            i <= plen,
            plen <= slen,
            plen == p@.len(),
            slen == s@.len(),
            forall|j: int| 0 <= j < i ==> p@[j] == s@[j],
        decreases plen - i,
    {
        if p.get_char(i) != s.get_char(i) {
            proof {
                assert(s@.subrange(0, p@.len() as int)[i as int] == s@[i as int]);
            }
            return false;
        }
        i += 1;
    }
    proof {
        assert(p@ =~= s@.subrange(0, p@.len() as int));
    }
    true
}

/// Does `p` end `s`?
pub fn has_suffix(s: &str, p: &str) -> (r: bool)
    ensures
        r == is_suffix(p@, s@),
{
    let plen = p.unicode_len();
    let slen = s.unicode_len();
    if plen > slen {
        return false;
    }
    let off = slen - plen;
    let mut i: usize = 0;
    while i < plen
        invariant
            i <= plen,
            plen <= slen,
            off == slen - plen,
            plen == p@.len(),
            slen == s@.len(),
            forall|j: int| 0 <= j < i ==> p@[j] == s@[off + j],
        decreases plen - i,
    {
        if p.get_char(i) != s.get_char(off + i) {
            proof {
                assert(s@.subrange(s@.len() - p@.len(), s@.len() as int)[i as int] == s@[
                    off + i
                ]);
            }
            return false;
        }
        i += 1;
    }
    proof {
        assert(p@ =~= s@.subrange(s@.len() - p@.len(), s@.len() as int));
    }
    true
}

/// Position of the first `c` in `s`, or `s`'s length where `c` is absent.
pub fn find_char(s: &str, c: char) -> (r: usize)
    ensures
        r as int == first_index_of(s@, c),
        r <= s@.len(),
{
    let len = s.unicode_len();
    let mut i: usize = 0;
    while i < len
        invariant
            i <= len,
            len == s@.len(),
            forall|j: int| 0 <= j < i ==> s@[j] != c,
        decreases len - i,
    {
        if s.get_char(i) == c {
            proof {
                lemma_first_index_at(s@, c, i as int);
            }
            return i;
        }
        i += 1;
    }
    proof {
        lemma_first_index_bounds(s@, c);
    }
    len
}

/// Splits `s` at every occurrence of `c`.
pub fn split_char(s: &str, c: char) -> (parts: Vec<String>)
    ensures
        parts.deep_view() == split_on(s@, c),
{
    let len = s.unicode_len();
    let mut parts: Vec<String> = Vec::new();
    let mut start: usize = 0;
    let mut i: usize = 0;
    proof {
        assert(s@.skip(0) =~= s@);
        assert(parts.deep_view() =~= Seq::<Seq<char>>::empty());
        assert(parts.deep_view() + split_on(s@, c) =~= split_on(s@, c));
    }
    while i < len
        invariant
            start <= i <= len,
            len == s@.len(),
            forall|j: int| start <= j < i ==> s@[j] != c,
            parts.deep_view() + split_on(s@.skip(start as int), c) == split_on(s@, c),
        decreases len - i,
    {
        if s.get_char(i) == c {
            let piece = s.substring_char(start, i).to_owned();
            proof {
                let pre = s@.subrange(start as int, i as int);
                assert(!pre.contains(c)) by {
                    if pre.contains(c) {
                        let w = choose|k: int| 0 <= k < pre.len() && pre[k] == c;
                        assert(s@[start + w] == c);
                    }
                }
                assert(s@.skip(start as int) =~= pre + seq![c] + s@.skip(i + 1));
                lemma_split_step(pre, s@.skip(i + 1), c);
            }
            let ghost old_dv = parts.deep_view();
            let ghost pre = s@.subrange(start as int, i as int);
            parts.push(piece);
            proof {
                assert(parts.deep_view() =~= old_dv.push(pre));
                assert(old_dv.push(pre) + split_on(s@.skip(i + 1), c) =~= old_dv + split_on(
                    s@.skip(start as int),
                    c,
                ));
            }
            start = i + 1;
        }
        i += 1;
    }
    let piece = s.substring_char(start, len).to_owned();
    proof {
        let tail_part = s@.subrange(start as int, len as int);
        assert(!tail_part.contains(c)) by {
            if tail_part.contains(c) {
                let w = choose|k: int| 0 <= k < tail_part.len() && tail_part[k] == c;
                assert(s@[start + w] == c);
            }
        }
        assert(s@.skip(start as int) =~= tail_part);
        lemma_split_absent(tail_part, c);
    }
    let ghost old_dv = parts.deep_view();
    let ghost tail_part = s@.subrange(start as int, len as int);
    parts.push(piece);
    proof {
        assert(parts.deep_view() =~= old_dv.push(tail_part));
        assert(old_dv.push(tail_part) =~= old_dv + split_on(s@.skip(start as int), c));
    }
    parts
}

/// `s` with every copy of the nonempty suffix `p` removed from its end.
pub open spec fn strip_suffix_all(s: Seq<char>, p: Seq<char>) -> Seq<char>
    decreases s.len(),
{
    if p.len() > 0 && is_suffix(p, s) {
        strip_suffix_all(s.take(s.len() - p.len()), p)
    } else {
        s
    }
}

/// `s` with every copy of the nonempty prefix `p` removed from its start.
pub open spec fn strip_prefix_all(s: Seq<char>, p: Seq<char>) -> Seq<char>
    decreases s.len(),
{
    if p.len() > 0 && is_prefix(p, s) {
        strip_prefix_all(s.skip(p.len() as int), p)
    } else {
        s
    }
}

/// Removes every trailing copy of `p` from `s`.
pub fn strip_suffix_reps(s: &str, p: &str) -> (r: String)
    ensures
        r@ == strip_suffix_all(s@, p@),
    decreases s@.len(),
{
    let plen = p.unicode_len();
    let slen = s.unicode_len();
    if plen > 0 && has_suffix(s, p) {
        let head = s.substring_char(0, slen - plen);
        proof {
            assert(head@ =~= s@.take(s@.len() - p@.len()));
        }
        strip_suffix_reps(head, p)
    } else {
        s.to_owned()
    }
}

/// Removes every leading copy of `p` from `s`.
pub fn strip_prefix_reps(s: &str, p: &str) -> (r: String)
    ensures
        r@ == strip_prefix_all(s@, p@),
    decreases s@.len(),
{
    let plen = p.unicode_len();
    let slen = s.unicode_len();
    if plen > 0 && has_prefix(s, p) {
        let tail_str = s.substring_char(plen, slen);
        proof {
            assert(tail_str@ =~= s@.skip(p@.len() as int));
        }
        strip_prefix_reps(tail_str, p)
    } else {
        s.to_owned()
    }
}

} // verus!

//! Text helpers for the registries: lexicographic ordering of names and
//! decimal rendering of indices.
//!
//! Names are ordered by their characters' scalar values.  For valid
//! Unicode text this coincides with the byte ordering of the UTF-8
//! encoding, which encodes scalar values order-preservingly.

use vstd::prelude::*;
use vstd::string::StrSliceExecFns;
use vstd::string::StringExecFns;

verus! {

/// Strict lexicographic order on character sequences: a proper prefix
/// precedes its extensions, and otherwise the first differing character
/// decides by scalar value.
pub open spec fn lex_lt(a: Seq<char>, b: Seq<char>) -> bool
    decreases a.len(),
{
    if b.len() == 0 {
        false
    } else if a.len() == 0 {
        true
    } else if a[0] == b[0] {
        lex_lt(a.skip(1), b.skip(1))
    } else {
        (a[0] as u32) < (b[0] as u32)
    }
}

/// The order is irreflexive.
pub proof fn lemma_lex_irrefl(a: Seq<char>)
    ensures
        !lex_lt(a, a),
    decreases a.len(),
{
    if a.len() > 0 {
        lemma_lex_irrefl(a.skip(1));
    }
}

/// The order is total: two sequences are ordered one way or the other,
/// or they are equal.
pub proof fn lemma_lex_total(a: Seq<char>, b: Seq<char>)
    ensures
        lex_lt(a, b) || lex_lt(b, a) || a == b,
    decreases a.len(),
{
    if a.len() == 0 && b.len() == 0 {
        assert(a =~= b);
    } else if a.len() > 0 && b.len() > 0 {
        if a[0] == b[0] {
            lemma_lex_total(a.skip(1), b.skip(1));
            if a.skip(1) == b.skip(1) {
                assert(a =~= b) by {
                    assert(a.skip(1).len() == a.len() - 1);
                    assert(b.skip(1).len() == b.len() - 1);
                    assert(a.len() == b.len());
                    assert forall|i: int| 0 <= i < a.len() implies a[i] == b[i] by {
                        if i >= 1 {
                            assert(a[i] == a.skip(1)[i - 1]);
                            assert(b[i] == b.skip(1)[i - 1]);
                        }
                    }
                }
            }
        } else {
            assert((a[0] as u32) != (b[0] as u32)) by {
                vstd::utf8::char_u32_cast(a[0], a[0] as u32);
                vstd::utf8::char_u32_cast(b[0], b[0] as u32);
            }
        }
    }
}

/// The order is transitive.
pub proof fn lemma_lex_trans(a: Seq<char>, b: Seq<char>, c: Seq<char>)
    requires
        lex_lt(a, b),
        lex_lt(b, c),
    ensures
        lex_lt(a, c),
    decreases a.len(),
{
    if a.len() > 0 && b.len() > 0 && c.len() > 0 {
        if a[0] == b[0] && b[0] == c[0] {
            lemma_lex_trans(a.skip(1), b.skip(1), c.skip(1));
        }
    }
}

/// The decimal digit for a value below ten.
pub open spec fn digit_char(d: nat) -> char {
    if d == 0 {
        '0'
    } else if d == 1 {
        '1'
    } else if d == 2 {
        '2'
    } else if d == 3 {
        '3'
    } else if d == 4 {
        '4'
    } else if d == 5 {
        '5'
    } else if d == 6 {
        '6'
    } else if d == 7 {
        '7'
    } else if d == 8 {
        '8'
    } else {
        '9'
    }
}

/// The decimal rendering of a number, most significant digit first and
/// without leading zeroes.
pub open spec fn dec_chars(n: nat) -> Seq<char>
    decreases n,
{
    if n < 10 {
        seq![digit_char(n)]
    } else {
        dec_chars(n / 10).push(digit_char(n % 10))
    }
}

/// Whether a pair list is strictly ascending by name.
pub open spec fn pairs_sorted(s: Seq<(String, bool)>) -> bool {
    forall|l1: int, l2: int|
        0 <= l1 < l2 < s.len() ==> lex_lt((#[trigger] s[l1]).0@, (#[trigger] s[l2]).0@)
}

/// Every pair of `s` is one of the first `i` pairs of `ps`.
pub open spec fn pairs_from(s: Seq<(String, bool)>, ps: Seq<(String, bool)>, i: int) -> bool {
    forall|l: int|
        #![trigger s[l]]
        0 <= l < s.len() ==> exists|j: int|
            0 <= j < i && s[l].0@ == (#[trigger] ps[j]).0@ && s[l].1 == ps[j].1
}

/// Each of the first `i` pairs of `ps` occurs in `s`.
pub open spec fn pairs_cover(s: Seq<(String, bool)>, ps: Seq<(String, bool)>, i: int) -> bool {
    forall|j: int|
        #![trigger ps[j]]
        0 <= j < i ==> exists|l: int|
            0 <= l < s.len() && (#[trigger] s[l]).0@ == ps[j].0@ && s[l].1 == ps[j].1
}

/// One step of insertion sort: inserting the `i`-th pair at the first
/// index that does not sort before it keeps the list sorted and keeps
/// it an exact rearrangement of the pairs taken so far.
pub proof fn lemma_insert_sorted_pairs(
    s: Seq<(String, bool)>,
    ps: Seq<(String, bool)>,
    i: int,
    idx: int,
    e: (String, bool),
)
    requires
        0 <= i < ps.len(),
        0 <= idx <= s.len(),
        s.len() == i,
        e.0@ == ps[i].0@,
        e.1 == ps[i].1,
        pairs_sorted(s),
        pairs_from(s, ps, i),
        pairs_cover(s, ps, i),
        forall|j1: int, j2: int|
            0 <= j1 < j2 < ps.len() ==> (#[trigger] ps[j1]).0@ != (#[trigger] ps[j2]).0@,
        forall|l: int| 0 <= l < idx ==> lex_lt((#[trigger] s[l]).0@, e.0@),
        idx < s.len() ==> !lex_lt(s[idx].0@, e.0@),
    ensures
        s.insert(idx, e).len() == i + 1,
        pairs_sorted(s.insert(idx, e)),
        pairs_from(s.insert(idx, e), ps, i + 1),
        pairs_cover(s.insert(idx, e), ps, i + 1),
{
    s.insert_ensures(idx, e);
    assert forall|l: int| idx <= l < s.len() implies lex_lt(e.0@, (#[trigger] s[l]).0@) by {
        let j = choose|j: int|
            0 <= j < i && s[l].0@ == (#[trigger] ps[j]).0@ && s[l].1 == ps[j].1;
        assert(ps[j].0@ != ps[i].0@);
        if l > idx {
            if lex_lt(s[l].0@, e.0@) {
                lemma_lex_trans(s[idx].0@, s[l].0@, e.0@);
            }
        }
        lemma_lex_total(e.0@, s[l].0@);
    }
    lemma_insert_keeps_sorted(s, idx, e);
    lemma_insert_keeps_from(s, ps, i, idx, e);
    lemma_insert_keeps_cover(s, ps, i, idx, e);
}

/// Inserting between the smaller and the larger entries keeps the
/// list sorted.
proof fn lemma_insert_keeps_sorted(s: Seq<(String, bool)>, idx: int, e: (String, bool))
    requires
        0 <= idx <= s.len(),
        pairs_sorted(s),
        forall|l: int| 0 <= l < idx ==> lex_lt((#[trigger] s[l]).0@, e.0@),
        forall|l: int| idx <= l < s.len() ==> lex_lt(e.0@, (#[trigger] s[l]).0@),
    ensures
        pairs_sorted(s.insert(idx, e)),
{
    s.insert_ensures(idx, e);
    let t = s.insert(idx, e);
    assert forall|l1: int, l2: int| 0 <= l1 < l2 < t.len() implies lex_lt(
        (#[trigger] t[l1]).0@,
        (#[trigger] t[l2]).0@,
    ) by {
        if l2 < idx {
            assert(t[l1] == s[l1] && t[l2] == s[l2]);
        } else if l1 > idx {
            assert(t[l1] == s[l1 - 1] && t[l2] == s[l2 - 1]);
        } else if l1 < idx && l2 == idx {
            assert(t[l1] == s[l1] && t[l2] == e);
        } else if l1 < idx && l2 > idx {
            assert(t[l1] == s[l1] && t[l2] == s[l2 - 1]);
        } else {
            assert(t[l1] == e && t[l2] == s[l2 - 1]);
        }
    }
}

/// Insertion adds nothing beyond the first `i + 1` source pairs.
proof fn lemma_insert_keeps_from(
    s: Seq<(String, bool)>,
    ps: Seq<(String, bool)>,
    i: int,
    idx: int,
    e: (String, bool),
)
    requires
        0 <= i < ps.len(),
        0 <= idx <= s.len(),
        e.0@ == ps[i].0@,
        e.1 == ps[i].1,
        pairs_from(s, ps, i),
    ensures
        pairs_from(s.insert(idx, e), ps, i + 1),
{
    s.insert_ensures(idx, e);
    let t = s.insert(idx, e);
    assert forall|l: int| #![trigger t[l]] 0 <= l < t.len() implies exists|j: int|
        0 <= j < i + 1 && t[l].0@ == (#[trigger] ps[j]).0@ && t[l].1 == ps[j].1 by {
        if l < idx {
            assert(t[l] == s[l]);
        } else if l == idx {
            assert(t[l] == e);
            assert(t[l].0@ == ps[i].0@ && t[l].1 == ps[i].1);
        } else {
            assert(t[l] == s[l - 1]);
        }
    }
}

/// Insertion keeps every pair placed so far, and places the new one.
proof fn lemma_insert_keeps_cover(
    s: Seq<(String, bool)>,
    ps: Seq<(String, bool)>,
    i: int,
    idx: int,
    e: (String, bool),
)
    requires
        0 <= i < ps.len(),
        0 <= idx <= s.len(),
        e.0@ == ps[i].0@,
        e.1 == ps[i].1,
        pairs_cover(s, ps, i),
    ensures
        pairs_cover(s.insert(idx, e), ps, i + 1),
{
    s.insert_ensures(idx, e);
    let t = s.insert(idx, e);
    assert forall|j: int| #![trigger ps[j]] 0 <= j < i + 1 implies exists|l: int|
        0 <= l < t.len() && (#[trigger] t[l]).0@ == ps[j].0@ && t[l].1 == ps[j].1 by {
        if j == i {
            assert(t[idx] == e);
            assert(t[idx].0@ == ps[j].0@ && t[idx].1 == ps[j].1);
        } else {
            let l0 = choose|l0: int|
                0 <= l0 < s.len() && (#[trigger] s[l0]).0@ == ps[j].0@ && s[l0].1 == ps[j].1;
            if l0 < idx {
                assert(t[l0] == s[l0]);
                assert(t[l0].0@ == ps[j].0@ && t[l0].1 == ps[j].1);
            } else {
                assert(t[l0 + 1] == s[l0]);
                assert(t[l0 + 1].0@ == ps[j].0@ && t[l0 + 1].1 == ps[j].1);
            }
        }
    }
}

/// Compares two strings in the order of `lex_lt`.
pub fn str_lt(a: &str, b: &str) -> (r: bool)
    ensures
        r == lex_lt(a@, b@),
{
    let la = a.unicode_len();
    let lb = b.unicode_len();
    let mut i: usize = 0;
    proof {
        assert(a@.skip(0) =~= a@);
        assert(b@.skip(0) =~= b@);
    }
    while i < la && i < lb
        invariant
            i <= la,
            i <= lb,
            la == a@.len(),
            lb == b@.len(),
            lex_lt(a@, b@) == lex_lt(a@.skip(i as int), b@.skip(i as int)),
        decreases la - i,
    {
        let ca = a.get_char(i);
        let cb = b.get_char(i);
        if ca == cb {
            proof {
                assert(a@.skip(i as int).skip(1) =~= a@.skip(i + 1));
                assert(b@.skip(i as int).skip(1) =~= b@.skip(i + 1));
            }
            i += 1;
        } else {
            return (ca as u32) < (cb as u32);
        }
    }
    i < lb
}

/// The one-character string for a decimal digit.
fn digit_str(d: u8) -> (r: &'static str)
    requires
        d < 10,
    ensures
        r@ == seq![digit_char(d as nat)],
{
    proof {
        reveal_strlit("0");
        reveal_strlit("1");
        reveal_strlit("2");
        reveal_strlit("3");
        reveal_strlit("4");
        reveal_strlit("5");
        reveal_strlit("6");
        reveal_strlit("7");
        reveal_strlit("8");
        reveal_strlit("9");
    }
    let r = if d == 0 {
        "0"
    } else if d == 1 {
        "1"
    } else if d == 2 {
        "2"
    } else if d == 3 {
        "3"
    } else if d == 4 {
        "4"
    } else if d == 5 {
        "5"
    } else if d == 6 {
        "6"
    } else if d == 7 {
        "7"
    } else if d == 8 {
        "8"
    } else {
        "9"
    };
    proof {
        assert(r@ =~= seq![digit_char(d as nat)]);
    }
    r
}

/// Appends the decimal rendering of a number to a string.
pub fn push_dec(out: &mut String, n: u128)
    ensures
        final(out)@ == old(out)@ + dec_chars(n as nat),
    decreases n,
{
    if n < 10 {
        out.append(digit_str(n as u8));
        proof {
            assert(out@ =~= old(out)@ + dec_chars(n as nat));
        }
    } else {
        push_dec(out, n / 10);
        out.append(digit_str((n % 10) as u8));
        proof {
            assert(out@ =~= old(out)@ + dec_chars(n as nat));
        }
    }
}

} // verus!

//! The mass-assignment pattern grammar.
//!
//! `mass_set` takes a name pattern, in which every occurrence of the
//! placeholder `{n}` is replaced by the zero-based index in decimal,
//! and a value pattern: a comma-separated list of `true` / `false`
//! tokens (ASCII-case-insensitive, each token trimmed of ASCII
//! whitespace and stripped of trailing `{r}` repeat markers).  A value
//! pattern that ends with `{r}` cycles over its list.
//!
//! The spec functions here define that grammar over character
//! sequences; the executable functions tokenise, classify and
//! substitute, each proved against its spec function.

use vstd::prelude::*;
use vstd::string::StrSliceExecFns;
use vstd::string::StringExecFns;

use crate::error::BBoolError;
use crate::text::dec_chars;

verus! {

/// The three-character token `{c}`.
pub open spec fn brace_tok(c: char) -> Seq<char> {
    seq!['{', c, '}']
}

/// The name-pattern placeholder `{n}`.
pub open spec fn placeholder_tok() -> Seq<char> {
    brace_tok('n')
}

/// The repeat marker `{r}`.
pub open spec fn repeat_tok() -> Seq<char> {
    brace_tok('r')
}

/// Whether the token occurs anywhere in the sequence.
pub open spec fn contains_tok(s: Seq<char>, t: Seq<char>) -> bool {
    exists|i: int| 0 <= i && i + t.len() <= s.len() && #[trigger] s.subrange(i, i + t.len()) == t
}

/// Whether the name pattern holds the placeholder `{n}`.
pub open spec fn has_placeholder(s: Seq<char>) -> bool {
    contains_tok(s, placeholder_tok())
}

/// Whether the value pattern holds a repeat marker `{r}` anywhere.
pub open spec fn has_repeat(s: Seq<char>) -> bool {
    contains_tok(s, repeat_tok())
}

/// Whether the value pattern ends with the repeat marker, which makes
/// the value list cycle.
pub open spec fn ends_repeat(s: Seq<char>) -> bool {
    s.len() >= 3 && s.subrange(s.len() - 3, s.len() as int) == repeat_tok()
}

/// The pattern with every occurrence of `{n}` replaced, scanning left
/// to right without overlap.
pub open spec fn replace_placeholder(p: Seq<char>, r: Seq<char>) -> Seq<char>
    decreases p.len(),
{
    if p.len() >= 3 && p.subrange(0, 3) == placeholder_tok() {
        r + replace_placeholder(p.skip(3), r)
    } else if p.len() == 0 {
        p
    } else {
        seq![p[0]] + replace_placeholder(p.skip(1), r)
    }
}

/// The name generated for the zero-based index `i`.
pub open spec fn name_at(p: Seq<char>, i: nat) -> Seq<char> {
    replace_placeholder(p, dec_chars(i))
}

/// ASCII whitespace, as trimmed from value-pattern tokens.
pub open spec fn is_ws(c: char) -> bool {
    c == ' ' || c == '\t' || c == '\n' || c == '\r' || c == '\u{b}' || c == '\u{c}'
}

/// The sequence without leading whitespace.
pub open spec fn trim_front(s: Seq<char>) -> Seq<char>
    decreases s.len(),
{
    if s.len() > 0 && is_ws(s[0]) {
        trim_front(s.skip(1))
    } else {
        s
    }
}

/// The sequence without trailing whitespace.
pub open spec fn trim_back(s: Seq<char>) -> Seq<char>
    decreases s.len(),
{
    if s.len() > 0 && is_ws(s.last()) {
        trim_back(s.drop_last())
    } else {
        s
    }
}

/// The sequence without surrounding whitespace.
pub open spec fn trim_chars(s: Seq<char>) -> Seq<char> {
    trim_back(trim_front(s))
}

/// The sequence without trailing repeat markers.
pub open spec fn strip_repeat(s: Seq<char>) -> Seq<char>
    decreases s.len(),
{
    if ends_repeat(s) {
        strip_repeat(s.take(s.len() - 3))
    } else {
        s
    }
}

/// The canonical form of a value-pattern token: trimmed, then stripped
/// of trailing repeat markers.
pub open spec fn canon_token(s: Seq<char>) -> Seq<char> {
    strip_repeat(trim_chars(s))
}

/// ASCII-case-insensitive match of a character against a lowercase
/// reference letter.
pub open spec fn eqi(c: char, l: char) -> bool {
    c == l || (c as u32) + 32 == (l as u32)
}

/// Whether the canonical token spells `true`, case-insensitively.
pub open spec fn is_true_token(s: Seq<char>) -> bool {
    s.len() == 4 && eqi(s[0], 't') && eqi(s[1], 'r') && eqi(s[2], 'u') && eqi(s[3], 'e')
}

/// Whether the canonical token spells `false`, case-insensitively.
pub open spec fn is_false_token(s: Seq<char>) -> bool {
    s.len() == 5 && eqi(s[0], 'f') && eqi(s[1], 'a') && eqi(s[2], 'l') && eqi(s[3], 's') && eqi(
        s[4],
        'e',
    )
}

/// The boolean a canonical token stands for, if any.
pub open spec fn token_value(s: Seq<char>) -> Option<bool> {
    if is_true_token(s) {
        Some(true)
    } else if is_false_token(s) {
        Some(false)
    } else {
        None
    }
}

/// The index of the first comma, or the length when there is none.
pub open spec fn first_comma(s: Seq<char>) -> nat
    decreases s.len(),
{
    if s.len() == 0 {
        0
    } else if s[0] == ',' {
        0
    } else {
        1 + first_comma(s.skip(1))
    }
}

/// The comma-separated parts of the value pattern, in order.  There is
/// always at least one part.
pub open spec fn split_commas(s: Seq<char>) -> Seq<Seq<char>>
    decreases s.len(),
{
    let fc = first_comma(s);
    if fc < s.len() {
        seq![s.take(fc as int)] + split_commas(s.skip(fc as int + 1))
    } else {
        seq![s]
    }
}

/// The canonical tokens of the value pattern, in order.
pub open spec fn tokens(s: Seq<char>) -> Seq<Seq<char>> {
    Seq::new(split_commas(s).len(), |j: int| canon_token(split_commas(s)[j]))
}

/// The first token, from index `k` on, that stands for no boolean;
/// `None` when every token is valid.
pub open spec fn first_invalid(toks: Seq<Seq<char>>, k: nat) -> Option<nat>
    decreases toks.len() - k,
{
    if k >= toks.len() {
        None
    } else if token_value(toks[k as int]) is None {
        Some(k)
    } else {
        first_invalid(toks, k + 1)
    }
}

/// The value assigned to the zero-based index `i`: cycling when the
/// pattern ends with the repeat marker, positional otherwise, with the
/// last value reused past the end of the list.
pub open spec fn value_at(vp: Seq<char>, i: nat) -> bool {
    let toks = tokens(vp);
    if ends_repeat(vp) {
        is_true_token(toks[(i % toks.len()) as int])
    } else if i < toks.len() {
        is_true_token(toks[i as int])
    } else {
        is_true_token(toks.last())
    }
}

/// The names a mass assignment generates.
pub open spec fn mass_names(p: Seq<char>, count: nat) -> Seq<Seq<char>> {
    Seq::new(count, |i: int| name_at(p, i as nat))
}

/// The values a mass assignment draws.
pub open spec fn mass_vals(vp: Seq<char>, count: nat) -> Seq<bool> {
    Seq::new(count, |i: int| value_at(vp, i as nat))
}

/// `first_comma` is the only index with its properties.
pub proof fn lemma_first_comma_unique(s: Seq<char>, k: nat)
    requires
        k <= s.len(),
        k < s.len() ==> s[k as int] == ',',
        forall|j: int| 0 <= j < k ==> s[j] != ',',
    ensures
        first_comma(s) == k,
    decreases s.len(),
{
    if s.len() == 0 {
    } else if k == 0 {
    } else {
        assert(s[0] != ',');
        lemma_first_comma_unique(s.skip(1), (k - 1) as nat);
    }
}

/// A prefix of valid tokens places no invalid token before its end.
pub proof fn lemma_first_invalid_skip(toks: Seq<Seq<char>>, k: nat)
    requires
        k <= toks.len(),
        forall|j: nat| j < k ==> token_value(#[trigger] toks[j as int]) is Some,
    ensures
        first_invalid(toks, 0) == first_invalid(toks, k),
    decreases k,
{
    if k > 0 {
        lemma_first_invalid_skip(toks, (k - 1) as nat);
        assert(token_value(toks[k - 1]) is Some);
    }
}

/// Whether this character is ASCII whitespace.
fn is_ws_exec(c: char) -> (r: bool)
    ensures
        r == is_ws(c),
{
    c == ' ' || c == '\t' || c == '\n' || c == '\r' || c == '\u{b}' || c == '\u{c}'
}

/// ASCII-case-insensitive comparison against a lowercase reference
/// letter.
fn char_eqi(c: char, l: char) -> (r: bool)
    ensures
        r == eqi(c, l),
{
    c == l || (c as u32) + 32 == (l as u32)
}

/// Whether the string holds the token `{mid}` anywhere.
pub fn has_brace_tok(s: &str, mid: char) -> (r: bool)
    ensures
        r == contains_tok(s@, brace_tok(mid)),
{
    let n = s.unicode_len();
    if n < 3 {
        return false;
    }
    let mut i: usize = 0;
    while n - i >= 3
        invariant
            n == s@.len(),
            i <= n,
            forall|j: int| 0 <= j < i ==> #[trigger] s@.subrange(j, j + 3) != brace_tok(mid),
        decreases n - i,
    {
        if s.get_char(i) == '{' && s.get_char(i + 1) == mid && s.get_char(i + 2) == '}' {
            proof {
                assert(s@.subrange(i as int, i + 3) =~= brace_tok(mid));
            }
            return true;
        }
        proof {
            assert(s@.subrange(i as int, i + 3)[0] == s@[i as int]);
            assert(s@.subrange(i as int, i + 3)[1] == s@[i + 1]);
            assert(s@.subrange(i as int, i + 3)[2] == s@[i + 2]);
        }
        i += 1;
    }
    proof {
        assert forall|j: int| 0 <= j && j + 3 <= n implies #[trigger] s@.subrange(j, j + 3) != brace_tok(
            mid,
        ) by {
            assert(j < i);
        }
    }
    false
}

/// The name generated for index `i`: the pattern with every `{n}`
/// replaced by the decimal rendering of `i`.
pub fn name_for(pattern: &str, i: u128) -> (r: String)
    ensures
        r@ == name_at(pattern@, i as nat),
    {
    let ghost d = dec_chars(i as nat);
    let n = pattern.unicode_len();
    let mut out = String::new();
    let mut seg_start: usize = 0;
    let mut pos: usize = 0;
    proof {
        assert(pattern@.skip(0) =~= pattern@);
        assert(pattern@.subrange(0, 0) =~= Seq::<char>::empty());
    }
    while pos < n
        invariant
            n == pattern@.len(),
            seg_start <= pos <= n,
            replace_placeholder(pattern@, d) == out@ + pattern@.subrange(
                seg_start as int,
                pos as int,
            ) + replace_placeholder(pattern@.skip(pos as int), d),
            d == dec_chars(i as nat),
        decreases n - pos,
    {
        let ghost rest = pattern@.skip(pos as int);
        if n - pos >= 3 && pattern.get_char(pos) == '{' && pattern.get_char(pos + 1) == 'n'
            && pattern.get_char(pos + 2) == '}' {
            proof {
                assert(rest.subrange(0, 3) =~= placeholder_tok()) by {
                    assert(rest.subrange(0, 3)[0] == pattern@[pos as int]);
                    assert(rest.subrange(0, 3)[1] == pattern@[pos + 1]);
                    assert(rest.subrange(0, 3)[2] == pattern@[pos + 2]);
                }
                assert(rest.skip(3) =~= pattern@.skip(pos + 3));
            }
            out.append(pattern.substring_char(seg_start, pos));
            crate::text::push_dec(&mut out, i);
            pos += 3;
            seg_start = pos;
            proof {
                assert(pattern@.subrange(seg_start as int, pos as int) =~= Seq::<char>::empty());
                assert(out@ + pattern@.subrange(seg_start as int, pos as int) =~= out@);
            }
        } else {
            proof {
                if rest.len() >= 3 && rest.subrange(0, 3) == placeholder_tok() {
                    assert(rest.subrange(0, 3)[0] == pattern@[pos as int]);
                    assert(rest.subrange(0, 3)[1] == pattern@[pos + 1]);
                    assert(rest.subrange(0, 3)[2] == pattern@[pos + 2]);
                    assert(false);
                }
                assert(rest[0] == pattern@[pos as int]);
                assert(rest.skip(1) =~= pattern@.skip(pos + 1));
                assert(pattern@.subrange(seg_start as int, pos + 1) =~= pattern@.subrange(
                    seg_start as int,
                    pos as int,
                ) + seq![pattern@[pos as int]]);
            }
            pos += 1;
        }
    }
    out.append(pattern.substring_char(seg_start, n));
    proof {
        assert(pattern@.skip(n as int).len() == 0);
        assert(replace_placeholder(pattern@.skip(n as int), d) =~= Seq::<char>::empty());
        assert(out@ =~= replace_placeholder(pattern@, d));
    }
    out
}

/// The canonical bounds of every value-pattern token: entry `j` gives
/// the half-open character range of `tokens(vp)[j]` within `vp`.
pub fn tokenize(vp: &str) -> (r: Vec<(usize, usize)>)
    ensures
        r@.len() == tokens(vp@).len(),
        forall|j: int|
            0 <= j < r@.len() ==> (#[trigger] r@[j]).0 <= r@[j].1 <= vp@.len() && tokens(
                vp@,
            )[j] == vp@.subrange(r@[j].0 as int, r@[j].1 as int),
{
    let n = vp.unicode_len();
    let mut out: Vec<(usize, usize)> = Vec::new();
    let mut start: usize = 0;
    let mut more = true;
    proof {
        assert(vp@.skip(0) =~= vp@);
    }
    while more
        invariant
            n == vp@.len(),
            start <= n,
            more ==> split_commas(vp@).len() == out@.len() + split_commas(
                vp@.skip(start as int),
            ).len(),
            more ==> forall|j: int|
                out@.len() <= j < split_commas(vp@).len() ==> split_commas(vp@)[j] == split_commas(
                    vp@.skip(start as int),
                )[j - out@.len()],
            !more ==> split_commas(vp@).len() == out@.len(),
            forall|j: int|
                0 <= j < out@.len() ==> (#[trigger] out@[j]).0 <= out@[j].1 <= n && canon_token(
                    split_commas(vp@)[j],
                ) == vp@.subrange(out@[j].0 as int, out@[j].1 as int),
        decreases n - start + (if more {
            1int
        } else {
            0int
        }),
    {
        let ghost suffix = vp@.skip(start as int);
        // Find the end of the current part.
        let mut e: usize = start;
        while e < n && vp.get_char(e) != ','
            invariant
                n == vp@.len(),
                start <= e <= n,
                forall|j: int| start <= j < e ==> vp@[j] != ',',
            decreases n - e,
        {
            e += 1;
        }
        proof {
            assert forall|j: int| 0 <= j < e - start implies suffix[j] != ',' by {
                assert(suffix[j] == vp@[start + j]);
            }
            if e < n {
                assert(suffix[e - start] == vp@[e as int]);
            }
            lemma_first_comma_unique(suffix, (e - start) as nat);
            if e < n {
                assert(suffix.take(e - start) =~= vp@.subrange(start as int, e as int));
                assert(suffix.skip(e - start + 1) =~= vp@.skip(e + 1));
            } else {
                assert(suffix =~= vp@.subrange(start as int, e as int));
            }
        }
        // Trim leading whitespace.
        let mut a: usize = start;
        while a < e && is_ws_exec(vp.get_char(a))
            invariant
                n == vp@.len(),
                start <= a <= e <= n,
                trim_front(vp@.subrange(start as int, e as int)) == trim_front(
                    vp@.subrange(a as int, e as int),
                ),
            decreases e - a,
        {
            proof {
                let cur = vp@.subrange(a as int, e as int);
                assert(cur[0] == vp@[a as int]);
                assert(cur.skip(1) =~= vp@.subrange(a + 1, e as int));
            }
            a += 1;
        }
        proof {
            let cur = vp@.subrange(a as int, e as int);
            if cur.len() > 0 {
                assert(cur[0] == vp@[a as int]);
            }
            assert(trim_front(cur) == cur);
        }
        // Trim trailing whitespace.
        let mut b: usize = e;
        while b > a && is_ws_exec(vp.get_char(b - 1))
            invariant
                n == vp@.len(),
                a <= b <= e <= n,
                trim_back(vp@.subrange(a as int, e as int)) == trim_back(
                    vp@.subrange(a as int, b as int),
                ),
            decreases b,
        {
            proof {
                let cur = vp@.subrange(a as int, b as int);
                assert(cur.last() == vp@[b - 1]);
                assert(cur.drop_last() =~= vp@.subrange(a as int, b - 1));
            }
            b -= 1;
        }
        proof {
            let cur = vp@.subrange(a as int, b as int);
            if cur.len() > 0 {
                assert(cur.last() == vp@[b - 1]);
            }
            assert(trim_back(cur) == cur);
        }
        // Strip trailing repeat markers.
        let ghost trimmed = vp@.subrange(a as int, b as int);
        while b - a >= 3 && vp.get_char(b - 3) == '{' && vp.get_char(b - 2) == 'r' && vp.get_char(
            b - 1,
        ) == '}'
            invariant
                n == vp@.len(),
                a <= b <= n,
                strip_repeat(trimmed) == strip_repeat(vp@.subrange(a as int, b as int)),
            decreases b,
        {
            proof {
                let cur = vp@.subrange(a as int, b as int);
                assert(cur.subrange(cur.len() - 3, cur.len() as int) =~= repeat_tok()) by {
                    assert(cur.subrange(cur.len() - 3, cur.len() as int)[0] == vp@[b - 3]);
                    assert(cur.subrange(cur.len() - 3, cur.len() as int)[1] == vp@[b - 2]);
                    assert(cur.subrange(cur.len() - 3, cur.len() as int)[2] == vp@[b - 1]);
                }
                assert(ends_repeat(cur));
                assert(cur.take(cur.len() - 3) =~= vp@.subrange(a as int, b - 3));
            }
            b -= 3;
        }
        proof {
            let cur = vp@.subrange(a as int, b as int);
            if ends_repeat(cur) {
                assert(cur.subrange(cur.len() - 3, cur.len() as int)[0] == vp@[b - 3]);
                assert(cur.subrange(cur.len() - 3, cur.len() as int)[1] == vp@[b - 2]);
                assert(cur.subrange(cur.len() - 3, cur.len() as int)[2] == vp@[b - 1]);
                assert(repeat_tok()[0] == '{' && repeat_tok()[1] == 'r' && repeat_tok()[2] == '}');
                assert(false);
            }
            assert(strip_repeat(cur) == cur);
        }
        out.push((a, b));
        if e < n {
            start = e + 1;
        } else {
            more = false;
        }
    }
    proof {
        assert(out@.len() == tokens(vp@).len());
    }
    out
}

/// A value pattern always has at least one token.
pub proof fn lemma_tokens_nonempty(s: Seq<char>)
    ensures
        tokens(s).len() >= 1,
{
    assert(split_commas(s).len() >= 1);
}

/// The character sequences of a list of string slices.
pub open spec fn views_of(ns: Seq<&str>) -> Seq<Seq<char>> {
    Seq::new(ns.len(), |i: int| ns[i]@)
}

/// The number of parts of the value pattern.
pub fn count_tokens(vp: &str) -> (r: usize)
    ensures
        r == tokens(vp@).len(),
{
    let bounds = tokenize(vp);
    bounds.len()
}

/// Parses the value pattern into its boolean list and its cycling flag.
/// Fails on the first token that spells neither `true` nor `false`.
pub fn parse_value_pattern(vp: &str) -> (r: Result<(Vec<bool>, bool), BBoolError>)
    ensures
        first_invalid(tokens(vp@), 0) is None ==> (r matches Ok(p) && p.0@.len() == tokens(
            vp@,
        ).len() && (forall|j: int| 0 <= j < p.0@.len() ==> p.0@[j] == is_true_token(tokens(vp@)[j]))
            && p.1 == ends_repeat(vp@)),
        first_invalid(tokens(vp@), 0) matches Some(b) ==> (r matches Err(
            BBoolError::InvalidBooleanToken(m),
        ) && m@ == tokens(vp@)[b as int]),
{
    let bounds = tokenize(vp);
    let mut vals: Vec<bool> = Vec::new();
    let mut j: usize = 0;
    while j < bounds.len()
        invariant
            bounds@.len() == tokens(vp@).len(),
            forall|k: int|
                0 <= k < bounds@.len() ==> (#[trigger] bounds@[k]).0 <= bounds@[k].1 <= vp@.len()
                    && tokens(vp@)[k] == vp@.subrange(bounds@[k].0 as int, bounds@[k].1 as int),
            j <= bounds@.len(),
            vals@.len() == j,
            forall|k: int| 0 <= k < j ==> vals@[k] == is_true_token(tokens(vp@)[k]),
            forall|k: nat| k < j ==> token_value(#[trigger] tokens(vp@)[k as int]) is Some,
        decreases bounds@.len() - j,
    {
        let a = bounds[j].0;
        let b = bounds[j].1;
        let ghost tok = tokens(vp@)[j as int];
        let l = b - a;
        proof {
            assert(tok.len() == l);
            if l >= 1 {
                assert(tok[0] == vp@[a as int]);
            }
            if l >= 2 {
                assert(tok[1] == vp@[a + 1]);
            }
            if l >= 3 {
                assert(tok[2] == vp@[a + 2]);
            }
            if l >= 4 {
                assert(tok[3] == vp@[a + 3]);
            }
            if l >= 5 {
                assert(tok[4] == vp@[a + 4]);
            }
        }
        let is_t = l == 4 && char_eqi(vp.get_char(a), 't') && char_eqi(vp.get_char(a + 1), 'r')
            && char_eqi(vp.get_char(a + 2), 'u') && char_eqi(vp.get_char(a + 3), 'e');
        let is_f = l == 5 && char_eqi(vp.get_char(a), 'f') && char_eqi(vp.get_char(a + 1), 'a')
            && char_eqi(vp.get_char(a + 2), 'l') && char_eqi(vp.get_char(a + 3), 's') && char_eqi(
            vp.get_char(a + 4),
            'e',
        );
        proof {
            assert(is_t == is_true_token(tok));
            assert(is_f == is_false_token(tok));
        }
        if is_t {
            vals.push(true);
        } else if is_f {
            vals.push(false);
        } else {
            proof {
                assert(token_value(tok) is None);
                lemma_first_invalid_skip(tokens(vp@), j as nat);
            }
            return Err(BBoolError::InvalidBooleanToken(String::from_str(vp.substring_char(a, b))));
        }
        j += 1;
    }
    proof {
        lemma_first_invalid_skip(tokens(vp@), tokens(vp@).len());
    }
    let n = vp.unicode_len();
    let rep = if n >= 3 {
        vp.get_char(n - 3) == '{' && vp.get_char(n - 2) == 'r' && vp.get_char(n - 1) == '}'
    } else {
        false
    };
    proof {
        if n >= 3 {
            let tail = vp@.subrange(n - 3, n as int);
            assert(tail[0] == vp@[n - 3]);
            assert(tail[1] == vp@[n - 2]);
            assert(tail[2] == vp@[n - 1]);
            assert(repeat_tok()[0] == '{' && repeat_tok()[1] == 'r' && repeat_tok()[2] == '}');
            if rep {
                assert(tail =~= repeat_tok());
            }
        }
        assert(rep == ends_repeat(vp@));
    }
    Ok((vals, rep))
}

} // verus!

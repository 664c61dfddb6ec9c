//! Verified string helpers: trimming, prefix tests, substring search,
//! tokenizing and joining, used by the focus and transport layers.

use vstd::prelude::*;
use vstd::string::StrSliceExecFns;
use vstd::string::StringExecFns;

verus! {

/// ASCII whitespace, as the trimming here understands it.
pub open spec fn is_ws(c: char) -> bool {
    c == ' ' || c == '\t' || c == '\n' || c == '\r'
}

/// Single or double quote.
pub open spec fn is_quote(c: char) -> bool {
    c == '\'' || c == '"'
}

/// `s` without its leading characters satisfying `p`.
pub open spec fn drop_while_start(s: Seq<char>, p: spec_fn(char) -> bool) -> Seq<char>
    decreases s.len(),
{
    if s.len() > 0 && p(s[0]) {
        drop_while_start(s.skip(1), p)
    } else {
        s
    }
}

/// `s` without its trailing characters satisfying `p`.
pub open spec fn drop_while_end(s: Seq<char>, p: spec_fn(char) -> bool) -> Seq<char>
    decreases s.len(),
{
    if s.len() > 0 && p(s.last()) {
        drop_while_end(s.drop_last(), p)
    } else {
        s
    }
}

/// `s` with characters satisfying `p` removed from both ends.
pub open spec fn strip_spec(s: Seq<char>, p: spec_fn(char) -> bool) -> Seq<char> {
    drop_while_end(drop_while_start(s, p), p)
}

/// `s` with leading and trailing whitespace removed.
pub open spec fn trim_spec(s: Seq<char>) -> Seq<char> {
    strip_spec(s, |c: char| is_ws(c))
}

/// `s` with leading and trailing quotes removed.
pub open spec fn strip_quotes_spec(s: Seq<char>) -> Seq<char> {
    strip_spec(s, |c: char| is_quote(c))
}

/// `s` without its leading whitespace.
pub open spec fn ws_dropped(s: Seq<char>) -> Seq<char> {
    drop_while_start(s, |c: char| is_ws(c))
}

/// Whether `n` occurs as a contiguous subsequence of `h`.
pub open spec fn contains_seq(h: Seq<char>, n: Seq<char>) -> bool {
    exists|o: int| 0 <= o <= h.len() - n.len() && #[trigger] h.subrange(o, o + n.len() as int) == n
}

pub proof fn lemma_drop_while_start_skip(s: Seq<char>, p: spec_fn(char) -> bool, a: int)
    requires
        0 <= a <= s.len(),
        forall|k: int| 0 <= k < a ==> p(s[k]),
    ensures
        drop_while_start(s, p) == drop_while_start(s.skip(a), p),
    decreases a,
{
    if a > 0 {
        assert(p(s[0]));
        assert(s.skip(1).skip(a - 1) =~= s.skip(a));
        lemma_drop_while_start_skip(s.skip(1), p, a - 1);
    } else {
        assert(s.skip(0) =~= s);
    }
}

pub proof fn lemma_drop_while_end_take(s: Seq<char>, p: spec_fn(char) -> bool, b: int)
    requires
        0 <= b <= s.len(),
        forall|k: int| b <= k < s.len() ==> p(s[k]),
    ensures
        drop_while_end(s, p) == drop_while_end(s.take(b), p),
    decreases s.len() - b,
{
    if b < s.len() {
        assert(p(s.last()));
        assert(s.drop_last().take(b) =~= s.take(b));
        lemma_drop_while_end_take(s.drop_last(), p, b);
    } else {
        assert(s.take(b as int) =~= s);
    }
}

/// Executable test for the whitespace predicate.
fn is_ws_char(c: char) -> (r: bool)
    ensures
        r == is_ws(c),
{
    c == ' ' || c == '\t' || c == '\n' || c == '\r'
}

/// Executable test for either trimming predicate.
fn char_matches(c: char, quotes: bool) -> (r: bool)
    ensures
        quotes ==> r == is_quote(c),
        !quotes ==> r == is_ws(c),
{
    if quotes {
        c == '\'' || c == '"'
    } else {
        c == ' ' || c == '\t' || c == '\n' || c == '\r'
    }
}

/// The characters of `s` from `a` on, with those from both ends that
/// satisfy the quote predicate removed — the core of trimming.
fn strip_range(s: &str, pred_quotes: bool) -> (r: &str)
    ensures
        !pred_quotes ==> r@ == strip_spec(s@, |c: char| is_ws(c)),
        pred_quotes ==> r@ == strip_spec(s@, |c: char| is_quote(c)),
{
    let ghost p: spec_fn(char) -> bool = if pred_quotes {
        |c: char| is_quote(c)
    } else {
        |c: char| is_ws(c)
    };
    let n = s.unicode_len();
    let mut a: usize = 0;
    while a < n && char_matches(s.get_char(a), pred_quotes)
        invariant
            n == s@.len(),
            a <= n,
            forall|c: char| #[trigger] p(c) == if pred_quotes {
                is_quote(c)
            } else {
                is_ws(c)
            },
            forall|k: int| 0 <= k < a ==> p(s@[k]),
        decreases n - a,
    {
        a = a + 1;
    }
    proof {
        lemma_drop_while_start_skip(s@, p, a as int);
        if a < n {
            assert(!p(s@[a as int]));
            assert(drop_while_start(s@.skip(a as int), p) == s@.skip(a as int));
        } else {
            assert(s@.skip(a as int) =~= Seq::<char>::empty());
            assert(drop_while_start(s@.skip(a as int), p) == s@.skip(a as int));
        }
    }
    let mut b: usize = n;
    while b > a && char_matches(s.get_char(b - 1), pred_quotes)
        invariant
            n == s@.len(),
            a <= b <= n,
            forall|c: char| #[trigger] p(c) == if pred_quotes {
                is_quote(c)
            } else {
                is_ws(c)
            },
            forall|k: int| 0 <= k < a ==> p(s@[k]),
            forall|k: int| b <= k < n ==> p(s@[k]),
        decreases b,
    {
        b = b - 1;
    }
    let r = s.substring_char(a, b);
    proof {
        let u = s@.skip(a as int);
        assert(drop_while_start(s@, p) == u);
        assert forall|k: int| b - a <= k < u.len() implies p(u[k]) by {
            assert(u[k] == s@[k + a]);
        }
        lemma_drop_while_end_take(u, p, b - a);
        assert(u.take(b - a) =~= s@.subrange(a as int, b as int));
        if b > a {
            assert(!p(u.take(b - a).last())) by {
                assert(u.take(b - a).last() == s@[b - 1]);
            }
            assert(drop_while_end(u.take(b - a), p) == u.take(b - a));
        } else {
            assert(u.take(b - a) =~= Seq::<char>::empty());
            assert(drop_while_end(u.take(b - a), p) == u.take(b - a));
        }
    }
    r
}

/// `s` with leading and trailing whitespace removed.
pub fn trim(s: &str) -> (r: &str)
    ensures
        r@ == trim_spec(s@),
{
    strip_range(s, false)
}

/// `s` with leading and trailing quote characters removed.
pub fn trim_quotes(s: &str) -> (r: &str)
    ensures
        r@ == strip_quotes_spec(s@),
{
    strip_range(s, true)
}

/// Character-wise string equality.
pub fn str_eq(a: &str, b: &str) -> (r: bool)
    ensures
        r == (a@ == b@),
{
    let n = a.unicode_len();
    if n != b.unicode_len() {
        proof {
            assert(a@ != b@);
        }
        return false;
    }
    let mut i: usize = 0;
    while i < n
        invariant
            n == a@.len(),
            n == b@.len(),
            i <= n,
            forall|k: int| 0 <= k < i ==> a@[k] == b@[k],
        decreases n - i,
    {
        if a.get_char(i) != b.get_char(i) {
            proof {
                assert(a@[i as int] != b@[i as int]);
            }
            return false;
        }
        i = i + 1;
    }
    proof {
        assert(a@ =~= b@);
    }
    true
}

/// Whether `s` begins with `p`.
pub fn starts_with_str(s: &str, p: &str) -> (r: bool)
    ensures
        r == (p@.len() <= s@.len() && s@.subrange(0, p@.len() as int) == p@),
{
    let pn = p.unicode_len();
    let n = s.unicode_len();
    if pn > n {
        return false;
    }
    let mut i: usize = 0;
    while i < pn
        invariant
            pn == p@.len(),
            n == s@.len(),
            pn <= n,
            i <= pn,
            forall|k: int| 0 <= k < i ==> s@[k] == p@[k],
        decreases pn - i,
    {
        if s.get_char(i) != p.get_char(i) {
            proof {
                assert(s@.subrange(0, pn as int)[i as int] != p@[i as int]);
            }
            return false;
        }
        i = i + 1;
    }
    proof {
        assert(s@.subrange(0, pn as int) =~= p@);
    }
    true
}

/// The remainder of `s` after the prefix `p`, if `s` begins with it.
pub fn strip_prefix_str<'a>(s: &'a str, p: &str) -> (r: Option<&'a str>)
    ensures
        r is Some <==> (p@.len() <= s@.len() && s@.subrange(0, p@.len() as int) == p@),
        r is Some ==> r->0@ == s@.skip(p@.len() as int),
{
    if starts_with_str(s, p) {
        let rest = s.substring_char(p.unicode_len(), s.unicode_len());
        proof {
            assert(rest@ =~= s@.skip(p@.len() as int));
        }
        Some(rest)
    } else {
        None
    }
}

/// Whether `n` matches `h` at offset `o`.
fn match_at(h: &str, n: &str, o: usize) -> (r: bool)
    requires
        o + n@.len() <= h@.len(),
    ensures
        r == (h@.subrange(o as int, o + n@.len() as int) == n@),
{
    let hn = h.unicode_len();
    let nn = n.unicode_len();
    let mut i: usize = 0;
    while i < nn
        invariant
            hn == h@.len(),
            nn == n@.len(),
            o + nn <= h@.len(),
            i <= nn,
            forall|k: int| 0 <= k < i ==> h@[o + k] == n@[k],
        decreases nn - i,
    {
        if h.get_char(o + i) != n.get_char(i) {
            proof {
                assert(h@.subrange(o as int, o + nn as int)[i as int] != n@[i as int]);
            }
            return false;
        }
        i = i + 1;
    }
    proof {
        assert(h@.subrange(o as int, o + nn as int) =~= n@);
    }
    true
}

/// Whether `n` occurs anywhere inside `h`.
pub fn contains_str(h: &str, n: &str) -> (r: bool)
    ensures
        r == contains_seq(h@, n@),
{
    let hn = h.unicode_len();
    let nn = n.unicode_len();
    if nn > hn {
        proof {
            assert(!contains_seq(h@, n@));
        }
        return false;
    }
    if nn == 0 {
        proof {
            let o: int = 0;
            assert(h@.subrange(o, o + n@.len() as int) =~= n@);
            assert(contains_seq(h@, n@));
        }
        return true;
    }
    let last = hn - nn + 1;
    let mut o: usize = 0;
    while o < last
        invariant
            hn == h@.len(),
            nn == n@.len(),
            0 < nn <= hn,
            last == hn - nn + 1,
            o <= last,
            forall|q: int| 0 <= q < o ==> #[trigger] h@.subrange(q, q + nn as int) != n@,
        decreases last - o,
    {
        if match_at(h, n, o) {
            proof {
                assert(contains_seq(h@, n@));
            }
            return true;
        }
        o = o + 1;
    }
    proof {
        assert(!contains_seq(h@, n@));
    }
    false
}

/// The first whitespace-separated token of `s`, if any: leading
/// whitespace dropped, then everything up to the next whitespace.
pub open spec fn first_token_spec(s: Seq<char>) -> Seq<char> {
    let u = ws_dropped(s);
    u.take(token_len(u) as int)
}

/// Length of the leading run of non-whitespace characters.
pub open spec fn token_len(s: Seq<char>) -> nat
    decreases s.len(),
{
    if s.len() > 0 && !is_ws(s[0]) {
        1 + token_len(s.skip(1))
    } else {
        0
    }
}

proof fn lemma_token_len_bound(s: Seq<char>)
    ensures
        token_len(s) <= s.len(),
    decreases s.len(),
{
    if s.len() > 0 && !is_ws(s[0]) {
        lemma_token_len_bound(s.skip(1));
    }
}

proof fn lemma_token_len_chars(s: Seq<char>, t: int)
    requires
        0 <= t <= s.len(),
        forall|k: int| 0 <= k < t ==> !is_ws(s[k]),
        t < s.len() ==> is_ws(s[t]),
    ensures
        token_len(s) == t,
    decreases t,
{
    if t > 0 {
        assert(!is_ws(s[0]));
        assert forall|k: int| 0 <= k < t - 1 implies !is_ws(s.skip(1)[k]) by {
            assert(s.skip(1)[k] == s[k + 1]);
        }
        if t - 1 < s.skip(1).len() {
            assert(s.skip(1)[t - 1] == s[t]);
        }
        lemma_token_len_chars(s.skip(1), t - 1);
    } else {
        if s.len() > 0 {
            assert(is_ws(s[0]));
        }
    }
}

/// The first whitespace-separated token of `s`: `None` when `s` is
/// empty or all whitespace.
pub fn first_token(s: &str) -> (r: Option<&str>)
    ensures
        r is Some <==> ws_dropped(s@).len() > 0,
        r is Some ==> r->0@ == first_token_spec(s@),
{
    let ghost p: spec_fn(char) -> bool = |c: char| is_ws(c);
    let n = s.unicode_len();
    let mut a: usize = 0;
    while a < n && is_ws_char(s.get_char(a))
        invariant
            n == s@.len(),
            a <= n,
            forall|c: char| #[trigger] p(c) == is_ws(c),
            forall|k: int| 0 <= k < a ==> p(s@[k]),
        decreases n - a,
    {
        a = a + 1;
    }
    proof {
        lemma_drop_while_start_skip(s@, p, a as int);
        if a < n {
            assert(!p(s@[a as int]));
            assert(drop_while_start(s@.skip(a as int), p) == s@.skip(a as int));
        } else {
            assert(s@.skip(a as int) =~= Seq::<char>::empty());
            assert(drop_while_start(s@.skip(a as int), p) == s@.skip(a as int));
        }
    }
    if a == n {
        return None;
    }
    let mut e: usize = a;
    while e < n && !is_ws_char(s.get_char(e))
        invariant
            n == s@.len(),
            a <= e <= n,
            forall|k: int| a <= k < e ==> !is_ws(s@[k]),
        decreases n - e,
    {
        e = e + 1;
    }
    let tok = s.substring_char(a, e);
    proof {
        let u = s@.skip(a as int);
        assert forall|k: int| 0 <= k < e - a implies !is_ws(u[k]) by {
            assert(u[k] == s@[k + a]);
        }
        if e < n {
            assert(is_ws(u[e - a])) by {
                assert(u[e - a] == s@[e as int]);
            }
        }
        lemma_token_len_chars(u, e - a);
        assert(tok@ =~= u.take(e - a));
    }
    Some(tok)
}

/// The elements of `parts` joined with `sep` between consecutive
/// elements.
pub open spec fn join_spec(parts: Seq<Seq<char>>, sep: Seq<char>) -> Seq<char>
    decreases parts.len(),
{
    if parts.len() == 0 {
        Seq::empty()
    } else if parts.len() == 1 {
        parts[0]
    } else {
        join_spec(parts.drop_last(), sep) + sep + parts.last()
    }
}

/// Join the strings of `parts` with `sep` between consecutive elements.
pub fn join_strings(parts: &Vec<String>, sep: &str) -> (r: String)
    ensures
        r@ == join_spec(parts@.map_values(|s: String| s@), sep@),
{
    let ghost views = parts@.map_values(|s: String| s@);
    let mut r = String::new();
    if parts.len() == 0 {
        proof {
            assert(views.len() == 0);
        }
        return r;
    }
    r.append(parts[0].as_str());
    let mut i: usize = 1;
    proof {
        assert(r@ =~= join_spec(views.take(1), sep@)) by {
            assert(views.take(1).len() == 1);
            assert(views.take(1)[0] == parts@[0]@);
        }
    }
    while i < parts.len()
        invariant
            1 <= i <= parts@.len(),
            views == parts@.map_values(|s: String| s@),
            views.len() == parts@.len(),
            r@ == join_spec(views.take(i as int), sep@),
        decreases parts@.len() - i,
    {
        r.append(sep);
        r.append(parts[i].as_str());
        proof {
            let t = views.take(i as int + 1);
            assert(t.drop_last() =~= views.take(i as int));
            assert(t.last() == parts@[i as int]@);
            assert(r@ =~= join_spec(t, sep@));
        }
        i = i + 1;
    }
    proof {
        assert(views.take(views.len() as int) =~= views);
    }
    r
}

/// Whether any of `parts` contains `n` as a substring.
pub open spec fn any_contains(parts: Seq<Seq<char>>, n: Seq<char>) -> bool {
    exists|i: int| 0 <= i < parts.len() && #[trigger] contains_seq(parts[i], n)
}

/// Whether any of the strings in `parts` contains `n`.
pub fn any_contains_str(parts: &Vec<String>, n: &str) -> (r: bool)
    ensures
        r == (exists|i: int|
            0 <= i < parts@.len() && #[trigger] contains_seq(parts@[i]@, n@)),
{
    let mut i: usize = 0;
    while i < parts.len()
        invariant
            i <= parts@.len(),
            forall|k: int| 0 <= k < i ==> !(#[trigger] contains_seq(parts@[k]@, n@)),
        decreases parts@.len() - i,
    {
        if contains_str(parts[i].as_str(), n) {
            return true;
        }
        i = i + 1;
    }
    false
}

} // verus!

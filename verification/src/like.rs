//! The SQL `LIKE` match that the history search is defined by.
//!
//! `%` stands for any run of characters, `_` for exactly one character;
//! ASCII letters match regardless of case, every other character only
//! itself. As in SQLite, text is read up to its first NUL character, and a
//! search whose pattern is longer than 50000 bytes finds nothing.
use vstd::prelude::*;

use crate::text::chars_of;

verus! {

broadcast use vstd::string::group_string_axioms;

/// The longest pattern, in UTF-8 bytes, that SQLite accepts for `LIKE`.
pub const MAX_LIKE_PATTERN_BYTES: usize = 50000;

/// The code point of `c` with ASCII upper case folded to lower case.
pub open spec fn fold_case(c: char) -> int {
    let n = c as int;
    if 65 <= n <= 90 {
        n + 32
    } else {
        n
    }
}

/// Does the pattern `p` from position `i` on match `s` from position `j` on?
pub open spec fn like_from(p: Seq<char>, s: Seq<char>, i: int, j: int) -> bool
    decreases p.len() - i, s.len() - j,
{
    if i >= p.len() {
        j >= s.len()
    } else if p[i] == '%' {
        like_from(p, s, i + 1, j) || (j < s.len() && like_from(p, s, i, j + 1))
    } else if j >= s.len() {
        false
    } else if p[i] == '_' || fold_case(p[i]) == fold_case(s[j]) {
        like_from(p, s, i + 1, j + 1)
    } else {
        false
    }
}

/// Index of the first NUL character of `s` at or after `i`, or its length.
pub open spec fn nul_at(s: Seq<char>, i: int) -> int
    decreases s.len() - i,
{
    if i < s.len() && s[i] != '\0' {
        nul_at(s, i + 1)
    } else {
        i
    }
}

/// `s` up to (not including) its first NUL character.
pub open spec fn upto_nul(s: Seq<char>) -> Seq<char> {
    s.subrange(0, nul_at(s, 0))
}

/// `s LIKE p` as SQLite evaluates it (the length limit aside).
pub open spec fn like(p: Seq<char>, s: Seq<char>) -> bool {
    like_from(upto_nul(p), upto_nul(s), 0, 0)
}

/// The pattern `%q%`: "contains `q`".
pub open spec fn contains_pattern(q: Seq<char>) -> Seq<char> {
    seq!['%'] + q + seq!['%']
}

proof fn lemma_nul_at_bounds(s: Seq<char>, i: int)
    requires
        0 <= i <= s.len(),
    ensures
        i <= nul_at(s, i) <= s.len(),
    decreases s.len() - i,
{
    if i < s.len() && s[i] != '\0' {
        lemma_nul_at_bounds(s, i + 1);
    }
}

/// `cs` cut at its first NUL character.
fn cut_at_nul(cs: Vec<char>) -> (r: Vec<char>)
    ensures
        r@ == upto_nul(cs@),
{
    let mut i: usize = 0;
    while i < cs.len() && cs[i] != '\0'
        invariant
            i <= cs.len(),
            nul_at(cs@, 0) == nul_at(cs@, i as int),
        decreases cs.len() - i,
    {
        i = i + 1;
    }
    let mut r: Vec<char> = Vec::new();
    let mut k: usize = 0;
    while k < i
        invariant
            k <= i <= cs.len(),
            r@ == cs@.subrange(0, k as int),
        decreases i - k,
    {
        r.push(cs[k]);
        assert(cs@.subrange(0, k + 1) == cs@.subrange(0, k as int).push(cs@[k as int]));
        k = k + 1;
    }
    r
}

fn fold_char(c: char) -> (r: u32)
    ensures
        r as int == fold_case(c),
{
    let n = c as u32;
    if 65 <= n && n <= 90 {
        n + 32
    } else {
        n
    }
}

/// Does the pattern `p` match all of `s`?
pub fn like_match(p: &Vec<char>, s: &Vec<char>) -> (r: bool)
    ensures
        r == like_from(p@, s@, 0, 0),
{
    let n = s.len();
    // `next[j]` holds `like_from(p, s, i, j)` for the row `i` computed last.
    let mut next: Vec<bool> = Vec::new();
    let mut j: usize = 0;
    while j < n
        invariant
            n == s.len(),
            j <= n,
            next.len() == j,
            forall|k: int| 0 <= k < j ==> next@[k] == like_from(p@, s@, p.len() as int, k),
        decreases n - j,
    {
        next.push(false);
        j = j + 1;
    }
    next.push(true);
    let mut i: usize = p.len();
    while i > 0
        invariant
            i <= p.len(),
            n == s.len(),
            next.len() == n + 1,
            forall|k: int| 0 <= k <= n ==> next@[k] == like_from(p@, s@, i as int, k),
        decreases i,
    {
        let pi = i - 1;
        let pc = p[pi];
        let mut cur: Vec<bool> = Vec::new();
        let mut z: usize = 0;
        while z < n
            invariant
                z <= n,
                cur.len() == z,
            decreases n - z,
        {
            cur.push(false);
            z = z + 1;
        }
        let last = if pc == '%' {
            next[n]
        } else {
            false
        };
        cur.push(last);
        let mut jj: usize = n;
        while jj > 0
            invariant
                jj <= n + 1,
                n == s.len(),
                pi < p.len(),
                pc == p@[pi as int],
                cur.len() == n + 1,
                next.len() == n + 1,
                forall|k: int| 0 <= k <= n ==> next@[k] == like_from(p@, s@, pi + 1, k),
                forall|k: int| jj <= k <= n ==> cur@[k] == like_from(p@, s@, pi as int, k),
            decreases jj,
        {
            let j = jj - 1;
            let v = if pc == '%' {
                next[j] || (j < n && cur[j + 1])
            } else if j >= n {
                false
            } else if pc == '_' || fold_char(pc) == fold_char(s[j]) {
                next[j + 1]
            } else {
                false
            };
            assert(v == like_from(p@, s@, pi as int, j as int));
            cur.set(j, v);
            jj = j;
        }
        next = cur;
        i = pi;
    }
    next[0]
}

/// Does `content LIKE '%' || query || '%'` hold, as in SQLite (whose length
/// limit the caller checks with `pattern_fits`)?
pub fn contains_like(query: &str, content: &str) -> (r: bool)
    ensures
        r == like(contains_pattern(query@), content@),
{
    let q = chars_of(query);
    let mut pat: Vec<char> = Vec::new();
    pat.push('%');
    let mut k: usize = 0;
    while k < q.len()
        invariant
            k <= q.len(),
            pat@ == seq!['%'] + q@.subrange(0, k as int),
        decreases q.len() - k,
    {
        pat.push(q[k]);
        assert(q@.subrange(0, k + 1) == q@.subrange(0, k as int).push(q@[k as int]));
        k = k + 1;
    }
    pat.push('%');
    assert(q@.subrange(0, q@.len() as int) == q@);
    assert(pat@ =~= contains_pattern(query@));
    let p = cut_at_nul(pat);
    let s = cut_at_nul(chars_of(content));
    like_match(&p, &s)
}

/// The pattern `%query%` fits SQLite's length limit.
pub open spec fn pattern_within_limit(query: Seq<char>) -> bool {
    (vstd::utf8::encode_utf8(query).len() as usize) + 2 <= MAX_LIKE_PATTERN_BYTES
}

/// Does the pattern `%query%` fit SQLite's length limit?
pub fn pattern_fits(query: &str) -> (r: bool)
    ensures
        r == pattern_within_limit(query@),
        r == (query.len() + 2 <= MAX_LIKE_PATTERN_BYTES),
{
    query.len() <= MAX_LIKE_PATTERN_BYTES - 2
}


proof fn lemma_percent_tail(p: Seq<char>, s: Seq<char>, i: int, j: int)
    requires
        0 <= i < p.len(),
        p[i] == '%',
        i + 1 == p.len(),
        0 <= j <= s.len(),
    ensures
        like_from(p, s, i, j),
    decreases s.len() - j,
{
    assert(like_from(p, s, i + 1, j) == (j >= s.len()));
    if j < s.len() {
        lemma_percent_tail(p, s, i, j + 1);
    }
    assert(like_from(p, s, i, j) == (like_from(p, s, i + 1, j) || (j < s.len() && like_from(p, s, i, j + 1))));
}

proof fn lemma_nul_free(s: Seq<char>, i: int)
    requires
        0 <= i <= s.len(),
        forall|k: int| 0 <= k < s.len() ==> s[k] != '\0',
    ensures
        nul_at(s, i) == s.len(),
    decreases s.len() - i,
{
    if i < s.len() {
        lemma_nul_free(s, i + 1);
    }
}

/// The pattern `%%` matches every text.
pub proof fn lemma_everything_contains_empty()
    ensures
        forall|s: Seq<char>| #[trigger] like(contains_pattern(Seq::empty()), s),
{
    let p = contains_pattern(Seq::<char>::empty());
    assert(p =~= seq!['%', '%']);
    lemma_nul_free(p, 0);
    assert(upto_nul(p) =~= p);
    assert forall|s: Seq<char>| #[trigger] like(contains_pattern(Seq::empty()), s) by {
        let t = upto_nul(s);
        lemma_nul_at_bounds(s, 0);
        lemma_percent_tail(p, t, 1, 0);
    }
}


proof fn lemma_literal_run(p: Seq<char>, s: Seq<char>, q: Seq<char>, a: int, k: int)
    requires
        p == contains_pattern(q),
        0 <= a,
        a + q.len() <= s.len(),
        forall|x: int| 0 <= x < q.len() ==> fold_case(#[trigger] s[a + x]) == fold_case(q[x]),
        forall|x: int| 0 <= x < q.len() ==> #[trigger] q[x] != '%',
        0 <= k <= q.len(),
    ensures
        like_from(p, s, 1 + k, a + k),
    decreases q.len() - k,
{
    if k == q.len() {
        lemma_percent_tail(p, s, 1 + k, a + k);
    } else {
        lemma_literal_run(p, s, q, a, k + 1);
        assert(p[1 + k] == q[k]);
        assert(fold_case(s[a + k]) == fold_case(q[k]));
    }
}

proof fn lemma_leading_percent(p: Seq<char>, s: Seq<char>, j: int, a: int)
    requires
        p.len() > 0,
        p[0] == '%',
        0 <= j <= a <= s.len(),
        like_from(p, s, 1, a),
    ensures
        like_from(p, s, 0, j),
    decreases a - j,
{
    if j < a {
        lemma_leading_percent(p, s, j + 1, a);
    }
}

/// A search finds every text that contains the query, up to the case of
/// ASCII letters, when the query has no wildcard (`%`, `_`) and neither
/// text holds a NUL character.
pub proof fn law_like_finds_contained(q: Seq<char>, s: Seq<char>, a: int)
    requires
        0 <= a,
        a + q.len() <= s.len(),
        forall|x: int| 0 <= x < q.len() ==> fold_case(#[trigger] s[a + x]) == fold_case(q[x]),
        forall|x: int| 0 <= x < q.len() ==> #[trigger] q[x] != '%' && q[x] != '_' && q[x] != '\0',
        forall|x: int| 0 <= x < s.len() ==> #[trigger] s[x] != '\0',
    ensures
        like(contains_pattern(q), s),
{
    let p = contains_pattern(q);
    assert forall|x: int| 0 <= x < p.len() implies #[trigger] p[x] != '\0' by {
        if 1 <= x <= q.len() {
            assert(p[x] == q[x - 1]);
        }
    }
    lemma_nul_free(p, 0);
    lemma_nul_free(s, 0);
    assert(upto_nul(p) =~= p);
    assert(upto_nul(s) =~= s);
    lemma_literal_run(p, s, q, a, 0);
    lemma_leading_percent(p, s, 0, a);
}

} // verus!

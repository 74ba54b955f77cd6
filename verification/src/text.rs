//! Character-level text helpers shared by the rest of the library.
//!
//! Strings are reasoned about through their views, sequences of Unicode
//! scalar values (`Seq<char>`).
use vstd::prelude::*;

verus! {

broadcast use vstd::string::group_string_axioms;

/// `String::push` from std: appends one character to the end of the string.
/// Claimed: the new view is the old view with `c` appended.
#[verifier::external_body]
fn push_char(s: &mut String, c: char)
    ensures
        final(s)@ == old(s)@.push(c),
{
    s.push(c);
}

/// The characters of `s`, in order.
pub fn chars_of(s: &str) -> (r: Vec<char>)
    ensures
        r@ == s@,
{
    let mut r: Vec<char> = Vec::new();
    for c in it: s.chars()
        invariant
            r@ == it.seq().take(it.index() as int),
            it.seq() == s@,
    {
        r.push(c);
    }
    r
}

/// A string made of the characters `cs[from..to]`.
pub fn string_of_range(cs: &Vec<char>, from: usize, to: usize) -> (r: String)
    requires
        from <= to <= cs.len(),
    ensures
        r@ == cs@.subrange(from as int, to as int),
{
    let mut r = String::new();
    let mut i = from;
    while i < to
        invariant
            from <= i <= to <= cs.len(),
            r@ == cs@.subrange(from as int, i as int),
        decreases to - i,
    {
        push_char(&mut r, cs[i]);
        assert(cs@.subrange(from as int, i + 1) == cs@.subrange(from as int, i as int).push(cs@[i as int]));
        i = i + 1;
    }
    r
}

/// A string made of all the characters of `cs`.
pub fn string_of(cs: &Vec<char>) -> (r: String)
    ensures
        r@ == cs@,
{
    let r = string_of_range(cs, 0, cs.len());
    assert(cs@.subrange(0, cs@.len() as int) == cs@);
    r
}

/// A copy of `s` (same characters).
pub fn copy_str(s: &str) -> (r: String)
    ensures
        r@ == s@,
{
    s.to_string()
}

/// A copy of an optional string.
pub fn copy_opt(o: &Option<String>) -> (r: Option<String>)
    ensures
        opt_view(r) == opt_view(*o),
{
    match o {
        Some(s) => Some(s.clone()),
        None => None,
    }
}

/// The view of an optional string.
pub open spec fn opt_view(o: Option<String>) -> Option<Seq<char>> {
    match o {
        Some(s) => Some(s@),
        None => None,
    }
}

/// `s` starts with `p`.
pub open spec fn starts_with(s: Seq<char>, p: Seq<char>) -> bool {
    p.len() <= s.len() && s.subrange(0, p.len() as int) == p
}

/// Does `cs` start with the characters of `p`?
pub fn vec_starts_with(cs: &Vec<char>, p: &str) -> (r: bool)
    ensures
        r == starts_with(cs@, p@),
{
    let pv = chars_of(p);
    if pv.len() > cs.len() {
        return false;
    }
    let mut i: usize = 0;
    while i < pv.len()
        invariant
            pv@ == p@,
            pv.len() <= cs.len(),
            i <= pv.len(),
            forall|k: int| 0 <= k < i ==> cs@[k] == pv@[k],
        decreases pv.len() - i,
    {
        if cs[i] != pv[i] {
            assert(cs@.subrange(0, pv@.len() as int)[i as int] != pv@[i as int]);
            return false;
        }
        i = i + 1;
    }
    assert(cs@.subrange(0, pv@.len() as int) =~= pv@);
    true
}

/// Equality of two strings, character by character.
pub fn str_eq(a: &str, b: &str) -> (r: bool)
    ensures
        r == (a@ == b@),
{
    let av = chars_of(a);
    let bv = chars_of(b);
    if av.len() != bv.len() {
        return false;
    }
    let mut i: usize = 0;
    while i < av.len()
        invariant
            av@ == a@,
            bv@ == b@,
            av.len() == bv.len(),
            i <= av.len(),
            forall|k: int| 0 <= k < i ==> av@[k] == bv@[k],
        decreases av.len() - i,
    {
        if av[i] != bv[i] {
            return false;
        }
        i = i + 1;
    }
    assert(av@ =~= bv@);
    true
}

/// Unicode `White_Space`, the property that `char::is_whitespace` tests.
pub open spec fn is_ws(c: char) -> bool {
    let n = c as int;
    ||| 0x09 <= n <= 0x0d
    ||| n == 0x20
    ||| n == 0x85
    ||| n == 0xa0
    ||| n == 0x1680
    ||| 0x2000 <= n <= 0x200a
    ||| n == 0x2028
    ||| n == 0x2029
    ||| n == 0x202f
    ||| n == 0x205f
    ||| n == 0x3000
}

/// Is `c` a whitespace character?
pub fn char_is_ws(c: char) -> (r: bool)
    ensures
        r == is_ws(c),
{
    let n = c as u32;
    (0x09 <= n && n <= 0x0d) || n == 0x20 || n == 0x85 || n == 0xa0 || n == 0x1680 || (0x2000
        <= n && n <= 0x200a) || n == 0x2028 || n == 0x2029 || n == 0x202f || n == 0x205f || n
        == 0x3000
}

/// Index of the first non-whitespace character of `s` at or after `i`
/// (or `s.len()` when there is none).
pub open spec fn skip_ws_fwd(s: Seq<char>, i: int) -> int
    decreases s.len() - i,
{
    if 0 <= i < s.len() && is_ws(s[i]) {
        skip_ws_fwd(s, i + 1)
    } else {
        i
    }
}

/// Going back from `j`, not below `lo`: the end of `s[lo..j]` once its
/// trailing whitespace is taken off.
pub open spec fn skip_ws_back(s: Seq<char>, j: int, lo: int) -> int
    decreases j - lo,
{
    if lo < j <= s.len() && is_ws(s[j - 1]) {
        skip_ws_back(s, j - 1, lo)
    } else {
        j
    }
}

/// `s` without its leading and trailing whitespace (`str::trim`).
pub open spec fn trim(s: Seq<char>) -> Seq<char> {
    let st = skip_ws_fwd(s, 0);
    s.subrange(st, skip_ws_back(s, s.len() as int, st))
}

pub(crate) proof fn lemma_skip_fwd_bounds(s: Seq<char>, i: int)
    requires
        0 <= i <= s.len(),
    ensures
        i <= skip_ws_fwd(s, i) <= s.len(),
        forall|k: int| i <= k < skip_ws_fwd(s, i) ==> is_ws(#[trigger] s[k]),
        skip_ws_fwd(s, i) < s.len() ==> !is_ws(s[skip_ws_fwd(s, i)]),
    decreases s.len() - i,
{
    if i < s.len() && is_ws(s[i]) {
        lemma_skip_fwd_bounds(s, i + 1);
    }
}

pub(crate) proof fn lemma_skip_back_bounds(s: Seq<char>, j: int, lo: int)
    requires
        0 <= lo <= j <= s.len(),
    ensures
        lo <= skip_ws_back(s, j, lo) <= j,
        forall|k: int| skip_ws_back(s, j, lo) <= k < j ==> is_ws(#[trigger] s[k]),
        skip_ws_back(s, j, lo) > lo ==> !is_ws(s[skip_ws_back(s, j, lo) - 1]),
    decreases j - lo,
{
    if lo < j && is_ws(s[j - 1]) {
        lemma_skip_back_bounds(s, j - 1, lo);
    }
}

/// The bounds `(start, end)` of `trim(s)` inside `s`.
pub fn trim_bounds(cs: &Vec<char>) -> (r: (usize, usize))
    ensures
        r.0 == skip_ws_fwd(cs@, 0),
        r.1 == skip_ws_back(cs@, cs@.len() as int, r.0 as int),
        r.0 <= r.1 <= cs.len(),
        trim(cs@) == cs@.subrange(r.0 as int, r.1 as int),
{
    let mut i: usize = 0;
    while i < cs.len() && char_is_ws(cs[i])
        invariant
            i <= cs.len(),
            skip_ws_fwd(cs@, 0) == skip_ws_fwd(cs@, i as int),
        decreases cs.len() - i,
    {
        i = i + 1;
    }
    let mut j: usize = cs.len();
    while j > i && char_is_ws(cs[j - 1])
        invariant
            i <= j <= cs.len(),
            skip_ws_back(cs@, cs@.len() as int, i as int) == skip_ws_back(cs@, j as int, i as int),
        decreases j - i,
    {
        j = j - 1;
    }
    (i, j)
}

/// `str::trim`: `s` without leading and trailing whitespace.
pub fn trim_str(s: &str) -> (r: String)
    ensures
        r@ == trim(s@),
{
    let cs = chars_of(s);
    let (a, b) = trim_bounds(&cs);
    string_of_range(&cs, a, b)
}

/// Lexicographic order of character sequences from position `i` on, by
/// code point; a proper prefix comes first.
pub open spec fn lt_from(a: Seq<char>, b: Seq<char>, i: int) -> bool
    decreases a.len() - i,
{
    if i >= a.len() {
        b.len() > i
    } else if i >= b.len() {
        false
    } else if a[i] != b[i] {
        (a[i] as int) < (b[i] as int)
    } else {
        lt_from(a, b, i + 1)
    }
}

/// `a` sorts strictly before `b`. For UTF-8 text this is the order of
/// a byte-wise comparison, the order in which SQLite sorts TEXT.
pub open spec fn text_lt(a: Seq<char>, b: Seq<char>) -> bool {
    lt_from(a, b, 0)
}

/// `a` sorts before or equal to `b`.
pub open spec fn text_le(a: Seq<char>, b: Seq<char>) -> bool {
    !text_lt(b, a)
}

proof fn lemma_lt_from_irreflexive(a: Seq<char>, i: int)
    requires
        0 <= i,
    ensures
        !lt_from(a, a, i),
    decreases a.len() - i,
{
    if i < a.len() {
        lemma_lt_from_irreflexive(a, i + 1);
    }
}

proof fn lemma_lt_from_transitive(a: Seq<char>, b: Seq<char>, c: Seq<char>, i: int)
    requires
        0 <= i,
        lt_from(a, b, i),
        lt_from(b, c, i),
    ensures
        lt_from(a, c, i),
    decreases a.len() - i,
{
    if i < a.len() && i < b.len() && i < c.len() && a[i] == b[i] && b[i] == c[i] {
        lemma_lt_from_transitive(a, b, c, i + 1);
    }
}

proof fn lemma_lt_from_total(a: Seq<char>, b: Seq<char>, i: int)
    requires
        0 <= i <= a.len(),
        i <= b.len(),
        a.subrange(0, i) == b.subrange(0, i),
        !lt_from(a, b, i),
        !lt_from(b, a, i),
    ensures
        a == b,
    decreases a.len() - i,
{
    if i < a.len() && i < b.len() {
        assert(a[i] == b[i]);
        assert(a.subrange(0, i + 1) =~= a.subrange(0, i).push(a[i]));
        assert(b.subrange(0, i + 1) =~= b.subrange(0, i).push(b[i]));
        lemma_lt_from_total(a, b, i + 1);
    } else {
        assert(a.len() == i && b.len() == i);
        assert(a =~= a.subrange(0, i));
        assert(b =~= b.subrange(0, i));
    }
}

/// `text_lt` is a strict total order.
pub proof fn lemma_text_order()
    ensures
        forall|a: Seq<char>| !#[trigger] text_lt(a, a),
        forall|a: Seq<char>, b: Seq<char>, c: Seq<char>|
            #[trigger] text_lt(a, b) && #[trigger] text_lt(b, c) ==> text_lt(a, c),
        forall|a: Seq<char>, b: Seq<char>|
            !#[trigger] text_lt(a, b) && !#[trigger] text_lt(b, a) ==> a == b,
{
    assert forall|a: Seq<char>| !#[trigger] text_lt(a, a) by {
        lemma_lt_from_irreflexive(a, 0);
    }
    assert forall|a: Seq<char>, b: Seq<char>, c: Seq<char>|
        #[trigger] text_lt(a, b) && #[trigger] text_lt(b, c) implies text_lt(a, c) by {
        lemma_lt_from_transitive(a, b, c, 0);
    }
    assert forall|a: Seq<char>, b: Seq<char>|
        !#[trigger] text_lt(a, b) && !#[trigger] text_lt(b, a) implies a == b by {
        assert(a.subrange(0, 0) =~= b.subrange(0, 0));
        lemma_lt_from_total(a, b, 0);
    }
}

/// Does `a` sort strictly before `b`?
pub fn text_less(a: &str, b: &str) -> (r: bool)
    ensures
        r == text_lt(a@, b@),
{
    let av = chars_of(a);
    let bv = chars_of(b);
    let mut i: usize = 0;
    loop
        invariant
            av@ == a@,
            bv@ == b@,
            i <= av.len(),
            lt_from(a@, b@, 0) == lt_from(a@, b@, i as int),
        decreases av.len() - i,
    {
        if i >= av.len() {
            return bv.len() > i;
        }
        if i >= bv.len() {
            return false;
        }
        if av[i] != bv[i] {
            return av[i] < bv[i];
        }
        i = i + 1;
    }
}


/// The ASCII digit for `d` (0 to 9).
pub open spec fn digit_char(d: int) -> char {
    ((48 + d) as u8) as char
}

/// `n` written in decimal.
pub open spec fn decimal(n: nat) -> Seq<char>
    decreases n,
{
    if n < 10 {
        seq![digit_char(n as int)]
    } else {
        decimal(n / 10).push(digit_char((n % 10) as int))
    }
}

/// The decimal digits of `n`.
pub fn decimal_chars(n: u64) -> (r: Vec<char>)
    ensures
        r@ == decimal(n as nat),
    decreases n,
{
    if n < 10 {
        let mut v: Vec<char> = Vec::new();
        v.push(((48 + n) as u8) as char);
        v
    } else {
        let mut v = decimal_chars(n / 10);
        v.push(((48 + n % 10) as u8) as char);
        v
    }
}

/// `n` written in decimal.
pub fn decimal_string(n: u64) -> (r: String)
    ensures
        r@ == decimal(n as nat),
{
    string_of(&decimal_chars(n))
}

} // verus!

//! Text helpers on which the rule engine and the account store rest.
//!
//! Strings are modelled by their sequence of characters (`s@`). Everything
//! here is stated over such sequences; the executable functions walk the
//! characters of their arguments once.

use vstd::prelude::*;

verus! {

/// The lower-case form of a text as `str::to_lowercase` computes it (the
/// Unicode `Lowercase` mapping, which may change the number of characters).
pub uninterp spec fn lowercase(s: Seq<char>) -> Seq<char>;

/// Whether a character has the Unicode `White_Space` property, as
/// `char::is_whitespace` decides it.
pub uninterp spec fn white_space(c: char) -> bool;

/// `str::to_lowercase`. Trusted: the result is named, not described; it
/// depends on the argument alone.
#[verifier::external_body]
pub(crate) fn to_lowercase(s: &str) -> (r: String)
    ensures
        r@ == lowercase(s@),
{
    s.to_lowercase()
}

/// `char::is_whitespace`. Trusted: the answer is named, not described; it
/// depends on the character alone.
#[verifier::external_body]
pub(crate) fn is_whitespace(c: char) -> (b: bool)
    ensures
        b == white_space(c),
{
    c.is_whitespace()
}

/// `String::push`. Trusted: the character is appended at the end and
/// nothing else changes.
#[verifier::external_body]
pub(crate) fn push_char(s: &mut String, c: char)
    ensures
        final(s)@ == old(s)@.push(c),
{
    s.push(c)
}

/// An optional text as an optional sequence of characters.
pub open spec fn opt_text(o: Option<String>) -> Option<Seq<char>> {
    match o {
        Some(s) => Some(s@),
        None => None,
    }
}

/// The characters of `s`, in order.
pub fn to_chars(s: &str) -> (out: Vec<char>)
    ensures
        out@ == s@,
{
    let mut out: Vec<char> = Vec::new();
    for c in it: s.chars()
        invariant
            out@ == it.seq().take(it.index() as int),
    {
        out.push(c);
    }
    out
}

/// The text made of the characters `v[from..to]`.
pub(crate) fn from_chars(v: &Vec<char>, from: usize, to: usize) -> (s: String)
    requires
        from <= to <= v.len(),
    ensures
        s@ == v@.subrange(from as int, to as int),
{
    let mut s = String::new();
    let mut i: usize = from;
    while i < to
        invariant
            from <= i <= to <= v.len(),
            s@ == v@.subrange(from as int, i as int),
        decreases to - i,
    {
        push_char(&mut s, v[i]);
        i += 1;
        assert(v@.subrange(from as int, i as int) == v@.subrange(from as int, i - 1).push(
            v@[i - 1],
        ));
    }
    s
}

/// Whether two texts hold the same characters.
pub fn same_text(a: &str, b: &str) -> (r: bool)
    ensures
        r == (a@ == b@),
{
    let x = a.to_owned();
    let y = b.to_owned();
    x == y
}

/// Whether an optional text is present and equal to `b`.
pub fn is_text(a: &Option<String>, b: &str) -> (r: bool)
    ensures
        r == (opt_text(*a) == Some(b@)),
{
    match a {
        Some(s) => same_text(s.as_str(), b),
        None => false,
    }
}

/// Whether two optional texts agree: both absent, or both present and equal.
pub fn same_opt_text(a: &Option<String>, b: &Option<String>) -> (r: bool)
    ensures
        r == (opt_text(*a) == opt_text(*b)),
{
    match (a, b) {
        (Some(x), Some(y)) => same_text(x.as_str(), y.as_str()),
        (None, None) => true,
        _ => false,
    }
}

// ---------------------------------------------------------------------
// Trimming
// ---------------------------------------------------------------------

/// Index of the first character at or after `from` that is not white space;
/// `s.len()` if there is none.
pub open spec fn first_ink(s: Seq<char>, from: int) -> int
    decreases s.len() - from,
{
    if from < 0 || from >= s.len() {
        s.len() as int
    } else if !white_space(s[from]) {
        from
    } else {
        first_ink(s, from + 1)
    }
}

/// One past the last character before `upto` that is not white space, never
/// going below `floor`.
pub open spec fn ink_end(s: Seq<char>, upto: int, floor: int) -> int
    decreases upto,
{
    if upto <= floor || upto > s.len() || upto <= 0 {
        floor
    } else if !white_space(s[upto - 1]) {
        upto
    } else {
        ink_end(s, upto - 1, floor)
    }
}

/// `s` without its leading and trailing white space.
pub open spec fn trimmed(s: Seq<char>) -> Seq<char> {
    let i = first_ink(s, 0);
    let j = ink_end(s, s.len() as int, i);
    s.subrange(i, j)
}

/// Removes leading and trailing white space, as `str::trim` does.
pub fn trim(s: &str) -> (r: String)
    ensures
        r@ == trimmed(s@),
{
    let v = to_chars(s);
    let n = v.len();
    let mut i: usize = 0;
    while i < n && is_whitespace(v[i])
        invariant
            0 <= i <= n == v.len(),
            first_ink(v@, 0) == first_ink(v@, i as int),
        decreases n - i,
    {
        i += 1;
    }
    let mut j: usize = n;
    while j > i && is_whitespace(v[j - 1])
        invariant
            i <= j <= n == v.len(),
            ink_end(v@, n as int, i as int) == ink_end(v@, j as int, i as int),
        decreases j,
    {
        j -= 1;
    }
    from_chars(&v, i, j)
}

// ---------------------------------------------------------------------
// ASCII case folding
// ---------------------------------------------------------------------

/// The ASCII lower-case form of a character: `A`..`Z` go to `a`..`z`, every
/// other character stays.
pub open spec fn fold_char(c: char) -> char {
    if 'A' <= c && c <= 'Z' {
        ((c as u8 + 32) as u8) as char
    } else {
        c
    }
}

/// A text with each character folded by `fold_char`.
pub open spec fn ascii_fold(s: Seq<char>) -> Seq<char> {
    s.map_values(|c: char| fold_char(c))
}

/// Whether two texts are equal up to the case of ASCII letters.
pub open spec fn same_folded(a: Seq<char>, b: Seq<char>) -> bool {
    ascii_fold(a) == ascii_fold(b)
}

fn fold_one(c: char) -> (r: char)
    ensures
        r == fold_char(c),
{
    if 'A' <= c && c <= 'Z' {
        let n: u8 = c as u8;
        (n + 32) as char
    } else {
        c
    }
}

/// Whether `a` and `b` are equal up to the case of ASCII letters.
pub fn eq_ignore_ascii_case(a: &str, b: &str) -> (r: bool)
    ensures
        r == same_folded(a@, b@),
{
    let x = to_chars(a);
    let y = to_chars(b);
    if x.len() != y.len() {
        assert(ascii_fold(a@).len() != ascii_fold(b@).len());
        return false;
    }
    let n = x.len();
    let mut i: usize = 0;
    while i < n
        invariant
            0 <= i <= n,
            n == x.len() == y.len(),
            x@ == a@,
            y@ == b@,
            forall|k: int| 0 <= k < i ==> fold_char(x@[k]) == fold_char(y@[k]),
        decreases n - i,
    {
        if fold_one(x[i]) != fold_one(y[i]) {
            assert(ascii_fold(a@)[i as int] != ascii_fold(b@)[i as int]);
            return false;
        }
        i += 1;
    }
    assert(ascii_fold(a@) =~= ascii_fold(b@));
    true
}

// ---------------------------------------------------------------------
// Prefix, suffix, infix
// ---------------------------------------------------------------------

/// Whether `n` occurs in `h` starting at index `at`.
pub open spec fn occurs_at(h: Seq<char>, n: Seq<char>, at: int) -> bool {
    0 <= at && at + n.len() <= h.len() && h.subrange(at, at + n.len()) == n
}

/// Whether `h` begins with `n`.
pub open spec fn starts_with(h: Seq<char>, n: Seq<char>) -> bool {
    occurs_at(h, n, 0)
}

/// Whether `h` ends with `n`.
pub open spec fn ends_with(h: Seq<char>, n: Seq<char>) -> bool {
    occurs_at(h, n, h.len() - n.len())
}

/// Whether `n` occurs somewhere in `h`.
pub open spec fn contains(h: Seq<char>, n: Seq<char>) -> bool {
    exists|at: int| occurs_at(h, n, at)
}

/// Whether `n` occurs in `h` at `at`.
pub(crate) fn matches_at(h: &Vec<char>, n: &Vec<char>, at: usize) -> (r: bool)
    requires
        at + n.len() <= h.len(),
    ensures
        r == occurs_at(h@, n@, at as int),
{
    let m = n.len();
    let mut k: usize = 0;
    while k < m
        invariant
            0 <= k <= m == n.len(),
            at + m <= h.len(),
            forall|j: int| 0 <= j < k ==> h@[at + j] == n@[j],
        decreases m - k,
    {
        if h[at + k] != n[k] {
            assert(h@.subrange(at as int, at + m)[k as int] != n@[k as int]);
            return false;
        }
        k += 1;
    }
    assert(h@.subrange(at as int, at + m) =~= n@);
    true
}

/// Whether the text `h` begins with the text `n`.
pub fn text_starts_with(h: &str, n: &str) -> (r: bool)
    ensures
        r == starts_with(h@, n@),
{
    let hv = to_chars(h);
    let nv = to_chars(n);
    if nv.len() > hv.len() {
        return false;
    }
    matches_at(&hv, &nv, 0)
}

/// Whether the text `h` ends with the text `n`.
pub fn text_ends_with(h: &str, n: &str) -> (r: bool)
    ensures
        r == ends_with(h@, n@),
{
    let hv = to_chars(h);
    let nv = to_chars(n);
    if nv.len() > hv.len() {
        return false;
    }
    matches_at(&hv, &nv, hv.len() - nv.len())
}

/// Whether the text `n` occurs somewhere in the text `h`.
pub fn text_contains(h: &str, n: &str) -> (r: bool)
    ensures
        r == contains(h@, n@),
{
    let hv = to_chars(h);
    let nv = to_chars(n);
    if nv.len() > hv.len() {
        assert(forall|at: int| !occurs_at(h@, n@, at));
        return false;
    }
    let last = hv.len() - nv.len();
    let mut at: usize = 0;
    while at < last
        invariant
            0 <= at <= last,
            last == hv.len() - nv.len(),
            hv@ == h@,
            nv@ == n@,
            forall|k: int| 0 <= k < at ==> !occurs_at(h@, n@, k),
        decreases last - at,
    {
        if matches_at(&hv, &nv, at) {
            return true;
        }
        at += 1;
    }
    let r = matches_at(&hv, &nv, at);
    assert(!r ==> forall|k: int| !occurs_at(h@, n@, k));
    r
}

// ---------------------------------------------------------------------
// Order
// ---------------------------------------------------------------------

/// Index of the first place at or after `from` where `a` and `b` differ or
/// one of them ends.
pub open spec fn first_difference(a: Seq<char>, b: Seq<char>, from: int) -> int
    decreases a.len() - from,
{
    if from < 0 || from >= a.len() || from >= b.len() || a[from] != b[from] {
        from
    } else {
        first_difference(a, b, from + 1)
    }
}

/// Whether `a` comes strictly before `b` in the order of texts: character
/// by character, by code point, a text before its extensions.
pub open spec fn text_less(a: Seq<char>, b: Seq<char>) -> bool {
    let k = first_difference(a, b, 0);
    if k >= b.len() {
        false
    } else if k >= a.len() {
        true
    } else {
        a[k] < b[k]
    }
}

/// Whether `a` comes strictly before `b` in the order of texts.
pub fn text_lt(a: &str, b: &str) -> (r: bool)
    ensures
        r == text_less(a@, b@),
{
    let x = to_chars(a);
    let y = to_chars(b);
    let mut k: usize = 0;
    while k < x.len() && k < y.len() && x[k] == y[k]
        invariant
            0 <= k <= x.len(),
            k <= y.len(),
            first_difference(x@, y@, 0) == first_difference(x@, y@, k as int),
        decreases x.len() - k,
    {
        k += 1;
    }
    if k >= y.len() {
        false
    } else if k >= x.len() {
        true
    } else {
        x[k] < y[k]
    }
}

/// What `first_difference` finds: up to it the two texts agree, and at it
/// they differ unless one of them has ended.
pub proof fn lemma_first_difference(a: Seq<char>, b: Seq<char>, from: int)
    requires
        0 <= from <= a.len(),
        from <= b.len(),
    ensures
        from <= first_difference(a, b, from) <= a.len(),
        first_difference(a, b, from) <= b.len(),
        forall|i: int| from <= i < first_difference(a, b, from) ==> a[i] == b[i],
        first_difference(a, b, from) < a.len() && first_difference(a, b, from) < b.len() ==> a[first_difference(
            a,
            b,
            from,
        )] != b[first_difference(a, b, from)],
    decreases a.len() - from,
{
    if from < a.len() && from < b.len() && a[from] == b[from] {
        lemma_first_difference(a, b, from + 1);
    }
}

/// A place up to which two texts agree, and at which they differ or one
/// of them ends, is their first difference.
pub proof fn lemma_first_difference_is(a: Seq<char>, b: Seq<char>, from: int, p: int)
    requires
        0 <= from <= p <= a.len(),
        p <= b.len(),
        forall|i: int| from <= i < p ==> a[i] == b[i],
        p == a.len() || p == b.len() || a[p] != b[p],
    ensures
        first_difference(a, b, from) == p,
    decreases p - from,
{
    if from < p {
        lemma_first_difference_is(a, b, from + 1, p);
    }
}

/// Of two texts, one comes before the other or they are the same text;
/// never both, and no text comes before itself.
pub proof fn lemma_text_order_total(a: Seq<char>, b: Seq<char>)
    ensures
        a == b || text_less(a, b) || text_less(b, a),
        !(text_less(a, b) && text_less(b, a)),
        a == b ==> !text_less(a, b),
{
    lemma_first_difference(a, b, 0);
    let k = first_difference(a, b, 0);
    lemma_first_difference_is(b, a, 0, k);
    if k >= a.len() && k >= b.len() {
        assert(a =~= b);
    }
}

/// The order of texts is transitive.
pub proof fn lemma_text_order_transitive(a: Seq<char>, b: Seq<char>, c: Seq<char>)
    requires
        text_less(a, b),
        text_less(b, c),
    ensures
        text_less(a, c),
{
    lemma_first_difference(a, b, 0);
    lemma_first_difference(b, c, 0);
    let i = first_difference(a, b, 0);
    let j = first_difference(b, c, 0);
    let p = if i <= j {
        i
    } else {
        j
    };
    assert forall|n: int| 0 <= n < p implies a[n] == c[n] by {
        assert(a[n] == b[n]);
        assert(b[n] == c[n]);
    }
    if i < j {
        if i < a.len() {
            assert(b[i] == c[i]);
        }
    } else if i > j {
        assert(a[j] == b[j]);
    }
    lemma_first_difference_is(a, c, 0, p);
}

} // verus!

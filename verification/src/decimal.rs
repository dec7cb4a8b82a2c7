//! Fixed-point arithmetic for money, share counts, prices and exchange rates.
//!
//! Every quantity is an `i64` count of millionths: `1_500_000` stands for
//! one and a half. Sums are exact; products and quotients are truncated
//! toward zero at the sixth decimal.

use crate::text::{push_char, to_chars};
use vstd::prelude::*;

verus! {

/// How many millionths make one.
pub const SCALE: i64 = 1_000_000;

/// Whether a mathematical integer can be held as a quantity.
pub open spec fn fits(v: int) -> bool {
    i64::MIN <= v <= i64::MAX
}

/// The nearest quantity to `v`: `v` itself where it fits, else the bound it
/// crossed.
pub open spec fn clamp(v: int) -> int {
    if v < i64::MIN {
        i64::MIN as int
    } else if v > i64::MAX {
        i64::MAX as int
    } else {
        v
    }
}

/// The absolute value of `x`.
pub open spec fn magnitude(x: int) -> int {
    if x < 0 {
        -x
    } else {
        x
    }
}

/// `x / d` rounded toward zero, for `d != 0`.
pub open spec fn trunc_div(x: int, d: int) -> int {
    if (x >= 0) == (d > 0) {
        magnitude(x) / magnitude(d)
    } else {
        -(magnitude(x) / magnitude(d))
    }
}

/// The fixed-point product of two quantities, before any range check.
pub open spec fn product(a: int, b: int) -> int {
    trunc_div(a * b, SCALE as int)
}

/// The fixed-point quotient of two quantities, before any range check; `b`
/// is not zero.
pub open spec fn quotient(a: int, b: int) -> int {
    trunc_div(a * SCALE, b)
}

/// Cash moved by an investment entry: a purchase takes `shares * price + fee`
/// out of the account, a sale brings `shares * price - fee` in.
pub open spec fn investment_amount(shares: int, price: int, fee: int, is_buy: bool) -> int {
    if is_buy {
        -(product(shares, price) + fee)
    } else {
        product(shares, price) - fee
    }
}

/// The share count as it is recorded: positive for a purchase, negative for
/// a sale.
pub open spec fn signed_shares(shares: int, is_buy: bool) -> int {
    if is_buy {
        shares
    } else {
        -shares
    }
}

proof fn lemma_magnitude_product(a: int, b: int)
    ensures
        magnitude(a * b) == magnitude(a) * magnitude(b),
        (a * b >= 0) <==> (a == 0 || b == 0 || ((a > 0) == (b > 0))),
{
    assert(magnitude(a * b) == magnitude(a) * magnitude(b)) by (nonlinear_arith);
    assert((a * b >= 0) <==> (a == 0 || b == 0 || ((a > 0) == (b > 0)))) by (nonlinear_arith);
}

proof fn lemma_product_bound(x: int, y: int, bx: int, by: int)
    requires
        0 <= x <= bx,
        0 <= y <= by,
    ensures
        0 <= x * y <= bx * by,
{
    assert(0 <= x * y <= bx * by) by (nonlinear_arith)
        requires
            0 <= x <= bx,
            0 <= y <= by,
    ;
}

fn abs_wide(a: i64) -> (m: i128)
    ensures
        m == magnitude(a as int),
        0 <= m <= 0x8000_0000_0000_0000,
{
    let w: i128 = a as i128;
    if w < 0 {
        -w
    } else {
        w
    }
}

/// The exact fixed-point product of `a` and `b`, in a wider integer.
pub fn mul_wide(a: i64, b: i64) -> (r: i128)
    ensures
        r == product(a as int, b as int),
{
    let ma = abs_wide(a);
    let mb = abs_wide(b);
    proof {
        lemma_product_bound(ma as int, mb as int, 0x8000_0000_0000_0000, 0x8000_0000_0000_0000);
        lemma_magnitude_product(a as int, b as int);
        assert(0x8000_0000_0000_0000int * 0x8000_0000_0000_0000int
            == 0x4000_0000_0000_0000_0000_0000_0000_0000int) by (nonlinear_arith);
    }
    let p: i128 = ma * mb;
    let q: i128 = p / 1_000_000;
    let negative = (a < 0) != (b < 0);
    if negative && a != 0 && b != 0 {
        -q
    } else {
        q
    }
}

/// The exact fixed-point quotient of `a` and `b`, in a wider integer.
pub fn div_wide(a: i64, b: i64) -> (r: i128)
    requires
        b != 0,
    ensures
        r == quotient(a as int, b as int),
{
    let ma = abs_wide(a);
    let mb = abs_wide(b);
    proof {
        lemma_product_bound(ma as int, 1_000_000, 0x8000_0000_0000_0000, 1_000_000);
        lemma_magnitude_product(a as int, SCALE as int);
        assert(0x8000_0000_0000_0000int * 1_000_000int == 9_223_372_036_854_775_808_000_000int)
            by (nonlinear_arith);
    }
    let p: i128 = ma * 1_000_000;
    let q: i128 = p / mb;
    assert(0 <= q <= p) by (nonlinear_arith)
        requires
            q == p / mb,
            p >= 0,
            mb >= 1,
    ;
    let negative = (a < 0) != (b < 0);
    if negative && a != 0 {
        -q
    } else {
        q
    }
}

/// Brings a wide value into range: itself where it fits, else the bound.
pub fn clamp_wide(v: i128) -> (r: i64)
    ensures
        r == clamp(v as int),
{
    if v < -0x8000_0000_0000_0000 {
        i64::MIN
    } else if v > 0x7fff_ffff_ffff_ffff {
        i64::MAX
    } else {
        v as i64
    }
}

/// A wide value as a quantity, if it fits.
pub fn narrow(v: i128) -> (r: Option<i64>)
    ensures
        r == (if fits(v as int) {
            Some(v as i64)
        } else {
            None
        }),
{
    if v < -0x8000_0000_0000_0000 || v > 0x7fff_ffff_ffff_ffff {
        None
    } else {
        Some(v as i64)
    }
}

/// `a + b`, brought into range.
pub fn saturating_sum(a: i64, b: i64) -> (r: i64)
    ensures
        r == clamp(a + b),
{
    clamp_wide(a as i128 + b as i128)
}

/// The fixed-point product of `a` and `b`, brought into range.
pub fn saturating_product(a: i64, b: i64) -> (r: i64)
    ensures
        r == clamp(product(a as int, b as int)),
{
    clamp_wide(mul_wide(a, b))
}

/// The fixed-point quotient of `a` and `b`, brought into range.
pub fn saturating_quotient(a: i64, b: i64) -> (r: i64)
    requires
        b != 0,
    ensures
        r == clamp(quotient(a as int, b as int)),
{
    clamp_wide(div_wide(a, b))
}

/// The cash amount of an investment entry, if it fits.
pub fn checked_investment_amount(shares: i64, price: i64, fee: i64, is_buy: bool) -> (r: Option<
    i64,
>)
    ensures
        fits(investment_amount(shares as int, price as int, fee as int, is_buy)) ==> r == Some(
            investment_amount(shares as int, price as int, fee as int, is_buy) as i64,
        ),
        !fits(investment_amount(shares as int, price as int, fee as int, is_buy)) ==> r is None,
{
    let total = mul_wide(shares, price);
    assert(-0x4000_0000_0000_0000_0000_0000_0000_0000 <= total
        <= 0x4000_0000_0000_0000_0000_0000_0000_0000) by {
        lemma_product_range(shares as int, price as int);
    }
    if is_buy {
        narrow(-(total + fee as i128))
    } else {
        narrow(total - fee as i128)
    }
}

proof fn lemma_product_range(a: int, b: int)
    requires
        fits(a),
        fits(b),
    ensures
        -0x4000_0000_0000_0000_0000_0000_0000_0000 <= product(a, b)
            <= 0x4000_0000_0000_0000_0000_0000_0000_0000,
{
    lemma_magnitude_product(a, b);
    lemma_product_bound(magnitude(a), magnitude(b), 0x8000_0000_0000_0000, 0x8000_0000_0000_0000);
    assert(0x8000_0000_0000_0000int * 0x8000_0000_0000_0000int
        == 0x4000_0000_0000_0000_0000_0000_0000_0000int) by (nonlinear_arith);
    let p = magnitude(a) * magnitude(b);
    assert(0 <= p / 1_000_000 <= p) by (nonlinear_arith)
        requires
            p >= 0,
    ;
}

// ---------------------------------------------------------------------
// Reading a quantity from text
// ---------------------------------------------------------------------

/// Whether a character is one of `0`..`9`.
pub open spec fn is_digit(c: char) -> bool {
    '0' <= c && c <= '9'
}

/// The number a digit stands for.
pub open spec fn digit_value(c: char) -> int {
    c as int - 48
}

/// Whether `s[from..to]` holds digits only.
pub open spec fn digits_in(s: Seq<char>, from: int, to: int) -> bool {
    forall|i: int| from <= i < to ==> is_digit(#[trigger] s[i])
}

/// The natural number that the digits `s[from..to]` spell.
pub open spec fn digits_value(s: Seq<char>, from: int, to: int) -> int
    decreases to - from,
{
    if to <= from {
        0
    } else {
        digits_value(s, from, to - 1) * 10 + digit_value(s[to - 1])
    }
}

/// Ten to the power `k`.
pub open spec fn pow10(k: nat) -> int
    decreases k,
{
    if k == 0 {
        1
    } else {
        10 * pow10((k - 1) as nat)
    }
}

/// How many digits of a fraction count: at most six.
pub open spec fn kept_digits(from: int, to: int) -> int {
    if to - from >= 6 {
        6
    } else if to - from <= 0 {
        0
    } else {
        to - from
    }
}

/// The millionths that the fraction digits `s[from..to]` stand for; digits
/// after the sixth are dropped.
pub open spec fn fraction_value(s: Seq<char>, from: int, to: int) -> int {
    let n = kept_digits(from, to);
    digits_value(s, from, from + n) * pow10((6 - n) as nat)
}

/// Index of the first `.` at or after `from`; `s.len()` if there is none.
pub open spec fn dot_index(s: Seq<char>, from: int) -> int
    decreases s.len() - from,
{
    if from < 0 || from >= s.len() {
        s.len() as int
    } else if s[from] == '.' {
        from
    } else {
        dot_index(s, from + 1)
    }
}

/// The quantity that `s[start..]` spells without a sign: digits, then
/// optionally a `.` and more digits, with at least one digit in all.
pub open spec fn unsigned_value(s: Seq<char>, start: int) -> Option<int> {
    let dot = dot_index(s, start);
    let frac = if dot < s.len() {
        dot + 1
    } else {
        s.len() as int
    };
    if digits_in(s, start, dot) && digits_in(s, frac, s.len() as int) && (dot - start) + (s.len()
        - frac) > 0 {
        Some(digits_value(s, start, dot) * SCALE + fraction_value(s, frac, s.len() as int))
    } else {
        None
    }
}

/// The quantity that a text spells, in millionths and without bound: an
/// optional `+` or `-`, then an unsigned decimal. `None` for any other text.
pub open spec fn decimal_value(s: Seq<char>) -> Option<int> {
    if s.len() > 0 && s[0] == '-' {
        match unsigned_value(s, 1) {
            Some(v) => Some(-v),
            None => None,
        }
    } else if s.len() > 0 && s[0] == '+' {
        unsigned_value(s, 1)
    } else {
        unsigned_value(s, 0)
    }
}

/// The quantity a text stands for in a numeric comparison: its decimal
/// value brought into range, or zero where the text spells no number.
pub open spec fn number_or_zero(s: Seq<char>) -> int {
    match decimal_value(s) {
        Some(v) => clamp(v),
        None => 0,
    }
}

proof fn lemma_digits_value_bound(s: Seq<char>, from: int, to: int)
    requires
        0 <= from <= to <= s.len(),
        digits_in(s, from, to),
    ensures
        0 <= digits_value(s, from, to) < pow10((to - from) as nat),
    decreases to - from,
{
    if to > from {
        lemma_digits_value_bound(s, from, to - 1);
        assert(is_digit(s[to - 1]));
    }
}

proof fn lemma_dot_index_bounds(s: Seq<char>, from: int)
    requires
        0 <= from <= s.len(),
    ensures
        from <= dot_index(s, from) <= s.len(),
    decreases s.len() - from,
{
    if from < s.len() && s[from] != '.' {
        lemma_dot_index_bounds(s, from + 1);
    }
}

proof fn lemma_pow10_values()
    ensures
        pow10(0) == 1,
        pow10(1) == 10,
        pow10(2) == 100,
        pow10(3) == 1_000,
        pow10(4) == 10_000,
        pow10(5) == 100_000,
        pow10(6) == 1_000_000,
{
    reveal_with_fuel(pow10, 7);
}

fn digit_of(c: char) -> (d: Option<u8>)
    ensures
        d is Some <==> is_digit(c),
        d matches Some(v) ==> v == digit_value(c) && v <= 9,
{
    if '0' <= c && c <= '9' {
        let n: u8 = c as u8;
        Some(n - 48)
    } else {
        None
    }
}

/// The quantity that `s` stands for in a numeric comparison: its decimal
/// value brought into range, zero where `s` spells no number.
pub fn parse_number(s: &str) -> (r: i64)
    ensures
        r == number_or_zero(s@),
{
    let v = to_chars(s);
    let n = v.len();
    let mut start: usize = 0;
    let mut negative = false;
    if n > 0 && v[0] == '-' {
        negative = true;
        start = 1;
    } else if n > 0 && v[0] == '+' {
        start = 1;
    }
    let ghost t = v@;
    let cap: i128 = 10_000_000_000_000;
    let mut acc: i128 = 0;
    let mut i: usize = start;
    let mut more = true;
    while more && i < n
        invariant
            start <= i <= n == v.len(),
            t == v@,
            cap == 10_000_000_000_000,
            digits_in(t, start as int, i as int),
            dot_index(t, start as int) == dot_index(t, i as int),
            !more ==> i < n && !is_digit(t[i as int]),
            0 <= acc <= cap,
            acc == (if digits_value(t, start as int, i as int) < cap {
                digits_value(t, start as int, i as int)
            } else {
                cap as int
            }),
        decreases (n - i) + (if more { 1int } else { 0int }),
    {
        match digit_of(v[i]) {
            Some(d) => {
                proof {
                    lemma_digits_value_bound(t, start as int, i as int);
                }
                acc = acc * 10 + d as i128;
                if acc > cap {
                    acc = cap;
                }
                i += 1;
            },
            None => {
                more = false;
            },
        }
    }
    let dot = i;
    if i < n && v[i] != '.' {
        // a character that is neither a digit nor the point
        proof {
            lemma_dot_index_bounds(t, i + 1);
        }
        assert(dot_index(t, start as int) > i);
        assert(!is_digit(t[i as int]));
        return 0;
    }
    proof {
        lemma_dot_index_bounds(t, i as int);
    }
    assert(dot_index(t, start as int) == dot);
    let frac: usize = if dot < n {
        dot + 1
    } else {
        n
    };
    let mut f: i128 = 0;
    let mut kept: usize = 0;
    let mut j: usize = frac;
    let mut clean = true;
    while clean && j < n
        invariant
            frac <= j <= n == v.len(),
            t == v@,
            digits_in(t, frac as int, j as int),
            !clean ==> j < n && !is_digit(t[j as int]),
            kept == kept_digits(frac as int, j as int),
            f == digits_value(t, frac as int, frac + kept),
            0 <= f < pow10(kept as nat),
        decreases (n - j) + (if clean { 1int } else { 0int }),
    {
        match digit_of(v[j]) {
            Some(d) => {
                if kept < 6 {
                    proof {
                        lemma_pow10_values();
                        assert(pow10((kept + 1) as nat) == 10 * pow10(kept as nat));
                    }
                    f = f * 10 + d as i128;
                    kept += 1;
                }
                j += 1;
            },
            None => {
                clean = false;
            },
        }
    }
    if !clean {
        return 0;
    }
    if (dot - start) + (n - frac) == 0 {
        return 0;
    }
    proof {
        lemma_pow10_values();
        assert(f == f * 1);
        assert(pow10((kept - kept) as nat) == 1);
    }
    let mut pad: usize = kept;
    while pad < 6
        invariant
            kept <= pad <= 6,
            f == digits_value(t, frac as int, frac + kept) * pow10((pad - kept) as nat),
            0 <= f < pow10(pad as nat),
        decreases 6 - pad,
    {
        proof {
            lemma_pow10_values();
            assert(pow10((pad + 1 - kept) as nat) == 10 * pow10((pad - kept) as nat));
            assert(pow10((pad + 1) as nat) == 10 * pow10(pad as nat));
            assert(digits_value(t, frac as int, frac + kept) * (10 * pow10((pad - kept) as nat))
                == 10 * (digits_value(t, frac as int, frac + kept) * pow10((pad - kept) as nat)))
                by (nonlinear_arith);
        }
        f = f * 10;
        pad += 1;
    }
    assert(f == fraction_value(t, frac as int, n as int));
    let ghost whole = digits_value(t, start as int, dot as int);
    proof {
        lemma_digits_value_bound(t, start as int, dot as int);
        assert(whole >= cap ==> whole * 1_000_000 >= 10_000_000_000_000_000_000) by (nonlinear_arith)
            requires
                cap == 10_000_000_000_000,
        ;
        assert(unsigned_value(t, start as int) == Some(whole * SCALE + f));
    }
    let total: i128 = acc * 1_000_000 + f;
    if negative {
        clamp_wide(-total)
    } else {
        clamp_wide(total)
    }
}

// ---------------------------------------------------------------------
// Writing a quantity as text
// ---------------------------------------------------------------------

/// The character for a digit `0 <= d <= 9`.
pub open spec fn digit_char(d: int) -> char {
    ((d + 48) as u8) as char
}

/// The decimal digits of a natural number, without leading zeros.
pub open spec fn digits_of(n: int) -> Seq<char>
    decreases n,
{
    if n < 10 {
        seq![digit_char(n)]
    } else {
        digits_of(n / 10).push(digit_char(n % 10))
    }
}

/// The last `width` decimal digits of `f`, with leading zeros.
pub open spec fn padded(f: int, width: nat) -> Seq<char>
    decreases width,
{
    if width == 0 {
        Seq::empty()
    } else {
        padded(f / 10, (width - 1) as nat).push(digit_char(f % 10))
    }
}

/// The digits after the point for `f` parts in `10^width`, without trailing
/// zeros.
pub open spec fn fraction_text(f: int, width: nat) -> Seq<char>
    decreases width,
{
    if width == 0 {
        Seq::empty()
    } else if f % 10 == 0 {
        fraction_text(f / 10, (width - 1) as nat)
    } else {
        padded(f, width)
    }
}

/// A quantity written out: a `-` for a negative one, the whole part, and,
/// unless it is zero, a point and the fraction without trailing zeros.
pub open spec fn rendered(x: int) -> Seq<char> {
    let m = magnitude(x);
    let whole = digits_of(m / (SCALE as int));
    let f = m % (SCALE as int);
    let body = if f == 0 {
        whole
    } else {
        whole + seq!['.'] + fraction_text(f, 6)
    };
    if x < 0 {
        seq!['-'] + body
    } else {
        body
    }
}

fn char_of(d: u8) -> (c: char)
    requires
        d <= 9,
    ensures
        c == digit_char(d as int),
{
    (d + 48) as char
}

fn push_digits(out: &mut String, n: u64)
    ensures
        final(out)@ == old(out)@ + digits_of(n as int),
    decreases n,
{
    if n >= 10 {
        push_digits(out, n / 10);
    }
    push_char(out, char_of((n % 10) as u8));
    assert(final(out)@ == old(out)@ + digits_of(n as int));
}

fn push_padded(out: &mut String, f: u64, width: u8)
    ensures
        final(out)@ == old(out)@ + padded(f as int, width as nat),
    decreases width,
{
    if width > 0 {
        push_padded(out, f / 10, width - 1);
        push_char(out, char_of((f % 10) as u8));
    }
    assert(final(out)@ == old(out)@ + padded(f as int, width as nat));
}

fn push_fraction(out: &mut String, f: u64, width: u8)
    ensures
        final(out)@ == old(out)@ + fraction_text(f as int, width as nat),
    decreases width,
{
    if width == 0 {
        assert(final(out)@ == old(out)@ + fraction_text(f as int, width as nat));
    } else if f % 10 == 0 {
        push_fraction(out, f / 10, width - 1);
    } else {
        push_padded(out, f, width);
    }
}

/// Writes a quantity out: `-5_500_000` becomes `-5.5`, `100_000_000`
/// becomes `100`.
pub fn render(x: i64) -> (r: String)
    ensures
        r@ == rendered(x as int),
{
    let m = abs_wide(x);
    let whole: u64 = (m / 1_000_000) as u64;
    let f: u64 = (m % 1_000_000) as u64;
    let mut r = String::new();
    if x < 0 {
        push_char(&mut r, '-');
    }
    let ghost head = r@;
    push_digits(&mut r, whole);
    if f != 0 {
        push_char(&mut r, '.');
        push_fraction(&mut r, f, 6);
    }
    proof {
        if f != 0 {
            assert(r@ == head + (digits_of(whole as int) + seq!['.'] + fraction_text(f as int, 6)));
        } else {
            assert(r@ == head + digits_of(whole as int));
        }
        if x < 0 {
            assert(head == seq!['-']);
        } else {
            assert(head == Seq::<char>::empty());
        }
    }
    r
}

// ---------------------------------------------------------------------
// Writing, then reading
// ---------------------------------------------------------------------

proof fn lemma_digit_char(d: int)
    requires
        0 <= d <= 9,
    ensures
        is_digit(digit_char(d)),
        digit_value(digit_char(d)) == d,
        digit_char(d) != '.',
        digit_char(d) != '-',
        digit_char(d) != '+',
{
}

proof fn lemma_digits_value_shift(s: Seq<char>, a: int, t: Seq<char>, b: int, n: int)
    requires
        0 <= n,
        0 <= a,
        a + n <= s.len(),
        0 <= b,
        b + n <= t.len(),
        forall|k: int| a <= k < a + n ==> #[trigger] s[k] == t[k - a + b],
    ensures
        digits_value(s, a, a + n) == digits_value(t, b, b + n),
    decreases n,
{
    if n > 0 {
        lemma_digits_value_shift(s, a, t, b, n - 1);
        assert(s[a + n - 1] == t[a + n - 1 - a + b]);
    }
}

proof fn lemma_digits_of(n: int)
    requires
        0 <= n,
    ensures
        digits_of(n).len() >= 1,
        digits_in(digits_of(n), 0, digits_of(n).len() as int),
        digits_value(digits_of(n), 0, digits_of(n).len() as int) == n,
    decreases n,
{
    if n < 10 {
        lemma_digit_char(n);
        let d = digits_of(n);
        assert(d.len() == 1);
        assert(d[0] == digit_char(n));
        assert(digits_value(d, 0, 0) == 0);
    } else {
        lemma_digits_of(n / 10);
        lemma_digit_char(n % 10);
        let p = digits_of(n / 10);
        let d = digits_of(n);
        assert(d == p.push(digit_char(n % 10)));
        assert forall|i: int| 0 <= i < d.len() implies is_digit(#[trigger] d[i]) by {
            if i < p.len() {
                assert(d[i] == p[i]);
                assert(is_digit(p[i]));
            }
        }
        assert forall|k: int| 0 <= k < 0 + p.len() implies #[trigger] d[k] == p[k - 0 + 0] by {}
        lemma_digits_value_shift(d, 0, p, 0, p.len() as int);
    }
}

proof fn lemma_padded(f: int, width: nat)
    requires
        0 <= f < pow10(width),
    ensures
        padded(f, width).len() == width,
        digits_in(padded(f, width), 0, width as int),
        digits_value(padded(f, width), 0, width as int) == f,
    decreases width,
{
    if width > 0 {
        let w1 = (width - 1) as nat;
        assert(pow10(width) == 10 * pow10(w1));
        lemma_padded(f / 10, w1);
        lemma_digit_char(f % 10);
        let p = padded(f / 10, w1);
        let d = padded(f, width);
        assert(d == p.push(digit_char(f % 10)));
        assert forall|i: int| 0 <= i < d.len() implies is_digit(#[trigger] d[i]) by {
            if i < p.len() {
                assert(d[i] == p[i]);
                assert(is_digit(p[i]));
            }
        }
        assert forall|k: int| 0 <= k < 0 + p.len() implies #[trigger] d[k] == p[k - 0 + 0] by {}
        lemma_digits_value_shift(d, 0, p, 0, p.len() as int);
    } else {
        assert(pow10(0) == 1);
    }
}

proof fn lemma_fraction_text(f: int, width: nat)
    requires
        0 < f < pow10(width),
    ensures
        1 <= fraction_text(f, width).len() <= width,
        digits_in(fraction_text(f, width), 0, fraction_text(f, width).len() as int),
        digits_value(fraction_text(f, width), 0, fraction_text(f, width).len() as int) * pow10(
            (width - fraction_text(f, width).len()) as nat,
        ) == f,
    decreases width,
{
    if width == 0 {
        assert(pow10(0) == 1);
    } else if f % 10 == 0 {
        let w1 = (width - 1) as nat;
        assert(pow10(width) == 10 * pow10(w1));
        lemma_fraction_text(f / 10, w1);
        let t = fraction_text(f / 10, w1);
        let v = digits_value(t, 0, t.len() as int);
        let k = (w1 - t.len()) as nat;
        assert(pow10((width - t.len()) as nat) == 10 * pow10(k));
        assert(v * (10 * pow10(k)) == 10 * (v * pow10(k))) by (nonlinear_arith);
    } else {
        lemma_padded(f, width);
        assert(pow10(0) == 1);
        let v = digits_value(padded(f, width), 0, width as int);
        assert(v * 1 == v);
    }
}

proof fn lemma_dot_index_at(s: Seq<char>, from: int, k: int)
    requires
        0 <= from <= k <= s.len(),
        forall|i: int| from <= i < k ==> s[i] != '.',
        k < s.len() ==> s[k] == '.',
    ensures
        dot_index(s, from) == k,
    decreases k - from,
{
    if from < k {
        lemma_dot_index_at(s, from + 1, k);
    }
}

/// A quantity written out and read again is the same quantity: in a
/// numeric comparison, the text of an amount stands for that amount.
pub proof fn lemma_written_then_read(x: int)
    requires
        fits(x),
    ensures
        decimal_value(rendered(x)) == Some(x),
        number_or_zero(rendered(x)) == x,
{
    let m = magnitude(x);
    let w = m / (SCALE as int);
    let f = m % (SCALE as int);
    let whole = digits_of(w);
    let s = rendered(x);
    let sign: int = if x < 0 {
        1
    } else {
        0
    };
    lemma_digits_of(w);
    lemma_pow10_values();
    lemma_digit_char(if w < 10 {
        w
    } else {
        0
    });
    let body = if f == 0 {
        whole
    } else {
        whole + seq!['.'] + fraction_text(f, 6)
    };
    assert(s == if x < 0 {
        seq!['-'] + body
    } else {
        body
    });
    let dot = sign + whole.len();
    assert forall|k: int| sign <= k < sign + whole.len() implies #[trigger] s[k] == whole[k - sign
        + 0] by {}
    assert forall|i: int| sign <= i < dot implies is_digit(#[trigger] s[i]) && s[i] != '.' by {
        assert(s[i] == whole[i - sign]);
        assert(is_digit(whole[i - sign]));
    }
    assert(is_digit(s[sign]));
    lemma_digits_value_shift(s, sign, whole, 0, whole.len() as int);
    if f == 0 {
        assert(s.len() == dot);
        lemma_dot_index_at(s, sign, dot);
        assert(fraction_value(s, dot, dot) == 0) by {
            assert(digits_value(s, dot, dot) == 0);
        }
        assert(unsigned_value(s, sign) == Some(w * SCALE + 0));
    } else {
        let frac = fraction_text(f, 6);
        lemma_fraction_text(f, 6);
        assert(s.len() == dot + 1 + frac.len());
        assert(s[dot] == '.');
        lemma_dot_index_at(s, sign, dot);
        assert forall|k: int| dot + 1 <= k < dot + 1 + frac.len() implies #[trigger] s[k] == frac[k
            - (dot + 1) + 0] by {}
        assert forall|i: int| dot + 1 <= i < s.len() implies is_digit(#[trigger] s[i]) by {
            assert(s[i] == frac[i - (dot + 1)]);
            assert(is_digit(frac[i - (dot + 1)]));
        }
        lemma_digits_value_shift(s, dot + 1, frac, 0, frac.len() as int);
        assert(kept_digits(dot + 1, s.len() as int) == frac.len());
        assert(fraction_value(s, dot + 1, s.len() as int) == f);
        assert(unsigned_value(s, sign) == Some(w * SCALE + f));
    }
    assert(w * SCALE + f == m);
}

} // verus!

use vstd::prelude::*;
use vstd::arithmetic::div_mod::lemma_fundamental_div_mod_converse;

verus! {

// Text in decimal notation: an optional sign (`-` or `+`), digits, optionally
// a point followed by more digits, with at least one digit before the
// exponent, then optionally an exponent: `e` or `E`, an optional sign and at
// least one digit (`70`, `-3`, `72.5`, `.5`, `5.`, `8e1`, `7.25E+1`, `5e-4`).
// A value is read in units of `10^-scale`; what is finer than that is dropped.

pub open spec fn is_digit(c: char) -> bool {
    '0' <= c && c <= '9'
}

pub open spec fn digit_value(c: char) -> int {
    c as int - '0' as int
}

pub open spec fn all_digits(s: Seq<char>) -> bool {
    forall|i: int| 0 <= i < s.len() ==> is_digit(#[trigger] s[i])
}

pub open spec fn is_exponent_mark(c: char) -> bool {
    c == 'e' || c == 'E'
}

/// The number that a run of decimal digits writes.
pub open spec fn digits_value(s: Seq<char>) -> int
    decreases s.len(),
{
    if s.len() == 0 {
        0
    } else {
        digits_value(s.drop_last()) * 10 + digit_value(s.last())
    }
}

pub open spec fn pow10(e: nat) -> int
    decreases e,
{
    if e == 0 {
        1
    } else {
        10 * pow10((e - 1) as nat)
    }
}

pub open spec fn sign_len(s: Seq<char>) -> int {
    if s.len() > 0 && (s[0] == '-' || s[0] == '+') {
        1
    } else {
        0
    }
}

pub open spec fn has_minus(s: Seq<char>) -> bool {
    s.len() > 0 && s[0] == '-'
}

/// The text after its sign.
pub open spec fn unsigned_part(s: Seq<char>) -> Seq<char> {
    s.skip(sign_len(s))
}

/// Whether the first `p` characters of `b` hold no exponent mark and `b`
/// ends or has one right after them.
pub open spec fn mantissa_end(b: Seq<char>, p: int) -> bool {
    &&& 0 <= p <= b.len()
    &&& forall|i: int| 0 <= i < p ==> !is_exponent_mark(#[trigger] b[i])
    &&& (p == b.len() || is_exponent_mark(b[p]))
}

/// How many characters of `b` come before its first exponent mark.
pub open spec fn mantissa_len(b: Seq<char>) -> int {
    choose|p: int| mantissa_end(b, p)
}

/// The unsigned text before the exponent.
pub open spec fn mantissa(s: Seq<char>) -> Seq<char> {
    let b = unsigned_part(s);
    b.take(mantissa_len(b))
}

pub open spec fn has_exponent(s: Seq<char>) -> bool {
    let b = unsigned_part(s);
    mantissa_len(b) < b.len()
}

/// The text after the exponent mark, with its sign; empty where there is none.
pub open spec fn exponent_text(s: Seq<char>) -> Seq<char> {
    let b = unsigned_part(s);
    if has_exponent(s) {
        b.skip(mantissa_len(b) + 1)
    } else {
        Seq::empty()
    }
}

/// The exponent, zero where there is none.
pub open spec fn exponent_value(s: Seq<char>) -> int {
    let x = exponent_text(s);
    let d = digits_value(unsigned_part(x));
    if has_minus(x) {
        -d
    } else {
        d
    }
}

/// Whether the leading digits of `m` are exactly its first `k` characters.
pub open spec fn digits_end(m: Seq<char>, k: int) -> bool {
    &&& 0 <= k <= m.len()
    &&& all_digits(m.take(k))
    &&& (k == m.len() || !is_digit(m[k]))
}

/// How many digits `m` starts with.
pub open spec fn whole_len(m: Seq<char>) -> int {
    choose|k: int| digits_end(m, k)
}

/// The characters after the point, if `m` has one after its leading digits.
pub open spec fn fraction(m: Seq<char>) -> Seq<char> {
    let k = whole_len(m);
    if k < m.len() {
        m.skip(k + 1)
    } else {
        Seq::empty()
    }
}

/// Whether `m` is digits with at most one point among them, and at least one digit.
pub open spec fn is_plain_number(m: Seq<char>) -> bool {
    let k = whole_len(m);
    &&& (k == m.len() || (m[k] == '.' && all_digits(m.skip(k + 1))))
    &&& k + fraction(m).len() > 0
}

/// Whether `x` is an optional sign followed by at least one digit.
pub open spec fn is_exponent(x: Seq<char>) -> bool {
    let u = unsigned_part(x);
    u.len() > 0 && all_digits(u)
}

/// Whether `s` is a number in decimal notation.
pub open spec fn is_decimal(s: Seq<char>) -> bool {
    &&& is_plain_number(mantissa(s))
    &&& (has_exponent(s) ==> is_exponent(exponent_text(s)))
}

/// The digits of a plain number, without its point.
pub open spec fn mantissa_digits(m: Seq<char>) -> Seq<char> {
    m.take(whole_len(m)) + fraction(m)
}

/// By how many places the digits of `s` move left to count units of `10^-scale`.
pub open spec fn digit_shift(s: Seq<char>, scale: nat) -> int {
    scale + exponent_value(s) - fraction(mantissa(s)).len()
}

/// `d` moved left by `shift` places, dropping the digits that fall below one.
pub open spec fn shifted(d: int, shift: int) -> int {
    if shift >= 0 {
        d * pow10(shift as nat)
    } else {
        d / pow10((-shift) as nat)
    }
}

/// The magnitude of the decimal `s`, in units of `10^-scale`, with what is
/// finer than one unit dropped.
pub open spec fn scaled_value(s: Seq<char>, scale: nat) -> int {
    shifted(digits_value(mantissa_digits(mantissa(s))), digit_shift(s, scale))
}

/// What a text holds when read as a decimal number.
#[derive(Clone, Copy, Debug, PartialEq, Eq, Structural)]
pub enum ParsedDecimal {
    /// Not a number in decimal notation.
    Malformed,
    /// A number written with a minus sign (`-0` included).
    Negative,
    /// A number without a minus sign, in units of `10^-scale`.
    Value(u64),
    /// A number without a minus sign that does not fit in a `u64` at this scale.
    TooLarge,
}

/// Exponents from this magnitude on are not held exactly: any such exponent
/// moves every nonzero digit out of a `u64` or below one unit.
const EXPONENT_CAP: u128 = 0x10_0000_0000_0000_0000_0000_0000;

proof fn lemma_digits_end_unique(m: Seq<char>, k1: int, k2: int)
    requires
        digits_end(m, k1),
        digits_end(m, k2),
    ensures
        k1 == k2,
{
    if k1 < k2 {
        assert(m.take(k2)[k1] == m[k1]);
    } else if k2 < k1 {
        assert(m.take(k1)[k2] == m[k2]);
    }
}

proof fn lemma_whole_len(m: Seq<char>, k: int)
    requires
        digits_end(m, k),
    ensures
        whole_len(m) == k,
{
    lemma_digits_end_unique(m, k, whole_len(m));
}

proof fn lemma_mantissa_len(b: Seq<char>, p: int)
    requires
        mantissa_end(b, p),
    ensures
        mantissa_len(b) == p,
{
    let q = mantissa_len(b);
    assert(mantissa_end(b, q));
    if q < p {
        assert(!is_exponent_mark(b[q]));
    } else if p < q {
        assert(!is_exponent_mark(b[p]));
    }
}

proof fn lemma_digits_push(s: Seq<char>, c: char)
    ensures
        digits_value(s.push(c)) == digits_value(s) * 10 + digit_value(c),
{
    assert(s.push(c).drop_last() =~= s);
}

proof fn lemma_pow10_positive(e: nat)
    ensures
        pow10(e) >= 1,
    decreases e,
{
    if e > 0 {
        lemma_pow10_positive((e - 1) as nat);
    }
}

proof fn lemma_pow10_monotonic(a: nat, b: nat)
    requires
        a <= b,
    ensures
        pow10(a) <= pow10(b),
    decreases b,
{
    if a < b {
        lemma_pow10_monotonic(a, (b - 1) as nat);
        lemma_pow10_positive((b - 1) as nat);
    }
}

proof fn lemma_pow10_twenty()
    ensures
        pow10(20) > u64::MAX,
{
    reveal_with_fuel(pow10, 21);
}

proof fn lemma_digits_bound(s: Seq<char>)
    requires
        all_digits(s),
    ensures
        0 <= digits_value(s) < pow10(s.len()),
    decreases s.len(),
{
    if s.len() > 0 {
        let t = s.drop_last();
        assert(all_digits(t)) by {
            assert forall|i: int| 0 <= i < t.len() implies is_digit(#[trigger] t[i]) by {
                assert(t[i] == s[i]);
            }
        }
        lemma_digits_bound(t);
        assert(is_digit(s[s.len() - 1]));
        assert(pow10(s.len()) == 10 * pow10(t.len()));
    }
}

proof fn lemma_digits_concat(a: Seq<char>, b: Seq<char>)
    ensures
        digits_value(a + b) == digits_value(a) * pow10(b.len()) + digits_value(b),
    decreases b.len(),
{
    if b.len() == 0 {
        assert(a + b =~= a);
    } else {
        let c = b.last();
        let t = b.drop_last();
        assert(a + b =~= (a + t).push(c));
        assert(b =~= t.push(c));
        lemma_digits_push(a + t, c);
        lemma_digits_push(t, c);
        lemma_digits_concat(a, t);
        assert(pow10(b.len()) == 10 * pow10(t.len()));
        let (x, y, p) = (digits_value(a), digits_value(t), pow10(t.len()));
        assert((x * p + y) * 10 + digit_value(c) == x * (10 * p) + (y * 10 + digit_value(c)))
            by (nonlinear_arith);
    }
}

/// Dropping the last `s.len() - t` digits divides by a power of ten.
proof fn lemma_digits_drop(s: Seq<char>, t: int)
    requires
        all_digits(s),
        0 <= t <= s.len(),
    ensures
        digits_value(s) / pow10((s.len() - t) as nat) == digits_value(s.take(t)),
{
    let k = (s.len() - t) as nat;
    assert(s =~= s.take(t) + s.skip(t));
    lemma_digits_concat(s.take(t), s.skip(t));
    assert(all_digits(s.skip(t))) by {
        assert forall|i: int| 0 <= i < s.skip(t).len() implies is_digit(#[trigger] s.skip(t)[i]) by {
            assert(s.skip(t)[i] == s[t + i]);
        }
    }
    lemma_digits_bound(s.skip(t));
    lemma_pow10_positive(k);
    lemma_fundamental_div_mod_converse(
        digits_value(s),
        pow10(k),
        digits_value(s.take(t)),
        digits_value(s.skip(t)),
    );
}

/// Dividing by a power of ten at least as long as the digits leaves nothing.
proof fn lemma_digits_drop_all(s: Seq<char>, k: nat)
    requires
        all_digits(s),
        s.len() <= k,
    ensures
        digits_value(s) / pow10(k) == 0,
{
    lemma_digits_bound(s);
    lemma_pow10_monotonic(s.len(), k);
    lemma_fundamental_div_mod_converse(digits_value(s), pow10(k), 0, digits_value(s));
}

fn is_digit_char(c: char) -> (r: bool)
    ensures
        r == is_digit(c),
{
    '0' <= c && c <= '9'
}

fn is_exponent_mark_char(c: char) -> (r: bool)
    ensures
        r == is_exponent_mark(c),
{
    c == 'e' || c == 'E'
}

fn digit_of(c: char) -> (r: u64)
    requires
        is_digit(c),
    ensures
        r == digit_value(c),
        r <= 9,
{
    (c as u32 - '0' as u32) as u64
}

/// Appends the digit `d` to a running value, or records that the value no
/// longer fits in a `u64`.
fn shift_in(acc: u64, over: bool, d: u64) -> (r: (u64, bool))
    requires
        d <= 9,
    ensures
        !over && acc * 10 + d <= u64::MAX ==> r == (((acc * 10 + d) as u64, false)),
        !over && acc * 10 + d > u64::MAX ==> r.1,
        over ==> r.1,
{
    if over || acc > (u64::MAX - d) / 10 {
        (acc, true)
    } else {
        (acc * 10 + d, false)
    }
}

/// The value of the first `take` digits, or `(_, true)` where it does not
/// fit in a `u64`.
fn digits_prefix(digits: &Vec<char>, take: usize) -> (r: (u64, bool))
    requires
        all_digits(digits@),
        take <= digits@.len(),
    ensures
        !r.1 ==> r.0 == digits_value(digits@.take(take as int)),
        r.1 ==> digits_value(digits@.take(take as int)) > u64::MAX,
{
    let mut acc: u64 = 0;
    let mut over = false;
    let mut j: usize = 0;
    assert(digits@.take(0) =~= Seq::<char>::empty());
    while j < take
        invariant
            all_digits(digits@),
            j <= take <= digits@.len(),
            !over ==> acc == digits_value(digits@.take(j as int)),
            over ==> digits_value(digits@.take(j as int)) > u64::MAX,
        decreases take - j,
    {
        let c = digits[j];
        assert(is_digit(digits@[j as int]));
        proof {
            assert(digits@.take(j + 1) =~= digits@.take(j as int).push(c));
            lemma_digits_push(digits@.take(j as int), c);
        }
        let r = shift_in(acc, over, digit_of(c));
        acc = r.0;
        over = r.1;
        j = j + 1;
    }
    (acc, over)
}

/// Reads `text` as a decimal number in units of `10^-scale`.
#[verifier::rlimit(100)]
pub fn parse_decimal(text: &str, scale: u64) -> (r: ParsedDecimal)
    ensures
        r is Malformed <==> !is_decimal(text@),
        r is Negative <==> is_decimal(text@) && has_minus(text@),
        r is Value <==> is_decimal(text@) && !has_minus(text@) && scaled_value(text@, scale as nat)
            <= u64::MAX,
        r matches ParsedDecimal::Value(v) ==> v == scaled_value(text@, scale as nat),
        r is TooLarge <==> is_decimal(text@) && !has_minus(text@) && scaled_value(
            text@,
            scale as nat,
        ) > u64::MAX,
{
    let n = text.unicode_len();
    let mut i: usize = 0;
    let mut negative = false;
    if n > 0 {
        let c = text.get_char(0);
        if c == '-' {
            negative = true;
            i = 1;
        } else if c == '+' {
            i = 1;
        }
    }
    let start = i;
    let ghost s = text@;
    let ghost b = unsigned_part(s);
    assert(start == sign_len(s));
    assert(negative == has_minus(s));
    // Find where the mantissa ends.
    while i < n && !is_exponent_mark_char(text.get_char(i))
        invariant
            n == s.len(),
            s == text@,
            b == s.skip(start as int),
            start <= i <= n,
            forall|j: int| 0 <= j < i - start ==> !is_exponent_mark(#[trigger] b[j]),
        decreases n - i,
    {
        assert(b[i - start] == s[i as int]);
        i = i + 1;
    }
    let me = i;
    let ghost p = me - start;
    proof {
        if me < n {
            assert(b[p] == s[me as int]);
        }
        assert(mantissa_end(b, p));
        lemma_mantissa_len(b, p);
    }
    let ghost m = mantissa(s);
    // The digits before the point.
    let mut digits: Vec<char> = Vec::new();
    i = start;
    assert(m.take(0) =~= Seq::<char>::empty());
    while i < me && is_digit_char(text.get_char(i))
        invariant
            n == s.len(),
            s == text@,
            b == s.skip(start as int),
            start <= i <= me <= n,
            p == me - start,
            m == b.take(p),
            all_digits(m.take(i - start)),
            digits@ == m.take(i - start),
        decreases me - i,
    {
        let c = text.get_char(i);
        assert(m[i - start] == c);
        assert(m.take(i + 1 - start) =~= m.take(i - start).push(c));
        digits.push(c);
        i = i + 1;
    }
    let k = i - start;
    proof {
        if i < me {
            assert(m[k as int] == s[i as int]);
        }
        assert(digits_end(m, k as int));
        lemma_whole_len(m, k as int);
    }
    let ghost whole = m.take(k as int);
    let ghost f = fraction(m);
    let mut frac_len: usize = 0;
    assert(whole + f.take(0) =~= whole);
    // The point and the digits after it.
    if i < me {
        assert(m[k as int] == s[i as int]);
        if text.get_char(i) != '.' {
            return ParsedDecimal::Malformed;
        }
        i = i + 1;
        while i < me
            invariant
                n == s.len(),
                s == text@,
                b == s.skip(start as int),
                p == me - start,
                me <= n,
                m == b.take(p),
                m == mantissa(s),
                whole == m.take(k as int),
                whole_len(m) == k,
                k < m.len(),
                f == m.skip(k + 1),
                start + k + 1 <= i <= me,
                frac_len == i - start - k - 1,
                all_digits(f.take(frac_len as int)),
                digits@ == whole + f.take(frac_len as int),
            decreases me - i,
        {
            let c = text.get_char(i);
            assert(f[frac_len as int] == c);
            if !is_digit_char(c) {
                assert(!all_digits(m.skip(k + 1)));
                return ParsedDecimal::Malformed;
            }
            assert(f.take(frac_len + 1) =~= f.take(frac_len as int).push(c));
            assert(whole + f.take(frac_len + 1) =~= (whole + f.take(frac_len as int)).push(c));
            digits.push(c);
            frac_len = frac_len + 1;
            i = i + 1;
        }
        assert(f.take(frac_len as int) =~= f);
    }
    assert(digits@ == mantissa_digits(m));
    assert(f.len() == frac_len);
    if digits.len() == 0 {
        return ParsedDecimal::Malformed;
    }
    assert(all_digits(digits@)) by {
        assert forall|j: int| 0 <= j < digits@.len() implies is_digit(#[trigger] digits@[j]) by {
            if j < k {
                assert(digits@[j] == whole[j]);
            } else {
                assert(digits@[j] == f[j - k]);
            }
        }
    }
    // The exponent.
    let mut e_acc: u128 = 0;
    let mut e_over = false;
    let mut e_neg = false;
    if me < n {
        let ghost x = exponent_text(s);
        assert(x =~= s.skip(me + 1));
        i = me + 1;
        if i < n {
            let c = text.get_char(i);
            if c == '-' {
                e_neg = true;
                i = i + 1;
            } else if c == '+' {
                i = i + 1;
            }
        }
        let e_start = i;
        let ghost u = unsigned_part(x);
        assert(e_neg == has_minus(x));
        assert(u =~= s.skip(e_start as int));
        assert(u.take(0) =~= Seq::<char>::empty());
        while i < n
            invariant
                n == s.len(),
                s == text@,
                e_start <= i <= n,
                u == s.skip(e_start as int),
                m == mantissa(s),
                is_plain_number(m),
                has_exponent(s),
                x == exponent_text(s),
                u == unsigned_part(x),
                all_digits(u.take(i - e_start)),
                !e_over ==> e_acc == digits_value(u.take(i - e_start)) && e_acc < EXPONENT_CAP,
                e_over ==> digits_value(u.take(i - e_start)) >= EXPONENT_CAP,
            decreases n - i,
        {
            let c = text.get_char(i);
            assert(u[i - e_start] == c);
            if !is_digit_char(c) {
                assert(!all_digits(u));
                return ParsedDecimal::Malformed;
            }
            proof {
                assert(u.take(i + 1 - e_start) =~= u.take(i - e_start).push(c));
                lemma_digits_push(u.take(i - e_start), c);
            }
            let d = digit_of(c) as u128;
            if !e_over {
                if e_acc * 10 + d >= EXPONENT_CAP {
                    e_over = true;
                } else {
                    e_acc = e_acc * 10 + d;
                }
            }
            i = i + 1;
        }
        assert(u.take(i - e_start) =~= u);
        if i == e_start {
            return ParsedDecimal::Malformed;
        }
    } else {
        assert(exponent_text(s) =~= Seq::<char>::empty());
        assert(unsigned_part(exponent_text(s)) =~= Seq::<char>::empty());
    }
    if negative {
        return ParsedDecimal::Negative;
    }
    let ghost ev = exponent_value(s);
    assert(!e_over ==> ev == if e_neg { -(e_acc as int) } else { e_acc as int });
    assert(e_over && e_neg ==> ev <= -EXPONENT_CAP);
    assert(e_over && !e_neg ==> ev >= EXPONENT_CAP);
    shift_digits(&digits, scale, frac_len, e_acc, e_over, e_neg, Ghost(ev))
}

/// The number that `digits` write, moved left by `scale + ev - frac_len`
/// places, where `ev` is the exponent (held in `e_acc` and `e_neg` unless it
/// reaches `EXPONENT_CAP`).
fn shift_digits(
    digits: &Vec<char>,
    scale: u64,
    frac_len: usize,
    e_acc: u128,
    e_over: bool,
    e_neg: bool,
    ev: Ghost<int>,
) -> (r: ParsedDecimal)
    requires
        all_digits(digits@),
        !e_over ==> e_acc < EXPONENT_CAP && ev@ == if e_neg {
            -(e_acc as int)
        } else {
            e_acc as int
        },
        e_over && e_neg ==> ev@ <= -EXPONENT_CAP,
        e_over && !e_neg ==> ev@ >= EXPONENT_CAP,
    ensures
        ({
            let v = shifted(digits_value(digits@), scale + ev@ - frac_len);
            ||| (r matches ParsedDecimal::Value(x) && x == v && v <= u64::MAX)
            ||| (r is TooLarge && v > u64::MAX)
        }),
{
    let ghost dv = digits_value(digits@);
    let ghost ev = ev@;
    let ghost shift = scale + ev - frac_len;
    let len = digits.len();
    proof {
        lemma_digits_bound(digits@);
        assert(digits@.take(len as int) =~= digits@);
    }
    if e_over {
        if e_neg {
            proof {
                lemma_digits_drop_all(digits@, (-shift) as nat);
            }
            return ParsedDecimal::Value(0);
        }
        let (acc, over) = digits_prefix(&digits, len);
        if !over && acc == 0 {
            return ParsedDecimal::Value(0);
        }
        proof {
            lemma_pow10_monotonic(20, shift as nat);
            lemma_pow10_twenty();
            let pw = pow10(shift as nat);
            assert(dv * pw >= pw) by (nonlinear_arith)
                requires
                    dv >= 1,
                    pw >= 0,
            ;
        }
        return ParsedDecimal::TooLarge;
    }
    let e_signed: i128 = if e_neg {
        -(e_acc as i128)
    } else {
        e_acc as i128
    };
    let sh: i128 = scale as i128 + e_signed - frac_len as i128;
    assert(sh == shift);
    if sh >= 0 {
        let (acc0, over0) = digits_prefix(&digits, len);
        if over0 {
            proof {
                lemma_pow10_positive(shift as nat);
                let pw = pow10(shift as nat);
                assert(dv * pw >= dv) by (nonlinear_arith)
                    requires
                        dv >= 0,
                        pw >= 1,
                ;
            }
            return ParsedDecimal::TooLarge;
        }
        let mut acc = acc0;
        let mut over = false;
        let mut j: i128 = 0;
        while j < sh && !over && acc != 0
            invariant
                0 <= j <= sh,
                sh == shift,
                dv >= 0,
                !over ==> acc == dv * pow10(j as nat),
                over ==> dv * pow10(j as nat) > u64::MAX,
            decreases sh - j,
        {
            proof {
                let pj = pow10(j as nat);
                assert(pow10((j + 1) as nat) == 10 * pj);
                assert(dv * (10 * pj) == 10 * (dv * pj)) by (nonlinear_arith);
            }
            let r = shift_in(acc, over, 0);
            acc = r.0;
            over = r.1;
            j = j + 1;
        }
        proof {
            let pj = pow10(j as nat);
            let ps = pow10(shift as nat);
            lemma_pow10_monotonic(j as nat, shift as nat);
            lemma_pow10_positive(j as nat);
            if over {
                assert(dv * pj <= dv * ps) by (nonlinear_arith)
                    requires
                        dv >= 0,
                        pj <= ps,
                ;
            } else if acc == 0 {
                assert(dv == 0) by (nonlinear_arith)
                    requires
                        dv * pj == 0,
                        pj >= 1,
                        dv >= 0,
                ;
            }
        }
        if over {
            return ParsedDecimal::TooLarge;
        }
        return ParsedDecimal::Value(acc);
    }
    let dropped: u128 = (-sh) as u128;
    if dropped >= len as u128 {
        proof {
            lemma_digits_drop_all(digits@, dropped as nat);
        }
        return ParsedDecimal::Value(0);
    }
    let take = (len as u128 - dropped) as usize;
    let (acc, over) = digits_prefix(&digits, take);
    proof {
        lemma_digits_drop(digits@, take as int);
    }
    if over {
        ParsedDecimal::TooLarge
    } else {
        ParsedDecimal::Value(acc)
    }
}

} // verus!

use vstd::prelude::*;
use vstd::string::{StrSliceExecFns, StringExecFns};

use crate::exercise::Fraction;
use crate::text::{append_nat, digit_char, digit_text, nat_text};

verus! {

/// `10` raised to `n`.
pub open spec fn ten_pow(n: nat) -> nat
    decreases n,
{
    if n == 0 {
        1
    } else {
        10 * ten_pow((n - 1) as nat)
    }
}

/// A number typed as an answer, digit by digit: its sign, all its digits
/// with the decimal point left out, and how many of them follow the point.
#[derive(Debug, PartialEq, Eq)]
pub struct Answer {
    pub negative: bool,
    pub digits: Vec<u8>,
    pub scale: usize,
}

/// What an answer stands for: the value `±num_of(digits) / 10^scale`.
pub struct AnswerView {
    pub negative: bool,
    pub digits: Seq<u8>,
    pub scale: nat,
}

impl View for Answer {
    type V = AnswerView;

    open spec fn view(&self) -> AnswerView {
        AnswerView { negative: self.negative, digits: self.digits@, scale: self.scale as nat }
    }
}

/// The digits `ds`, most significant first, read as one whole number.
pub open spec fn num_of(ds: Seq<u8>) -> nat
    decreases ds.len(),
{
    if ds.len() == 0 {
        0
    } else {
        num_of(ds.drop_last()) * 10 + ds.last() as nat
    }
}

pub open spec fn all_digits(ds: Seq<u8>) -> bool {
    forall|i: int| 0 <= i < ds.len() ==> #[trigger] ds[i] < 10
}

impl AnswerView {
    pub open spec fn wf(&self) -> bool {
        all_digits(self.digits) && self.scale <= self.digits.len()
    }

    /// The numerator of the value over `10^scale`.
    pub open spec fn mantissa(&self) -> int {
        if self.negative {
            -(num_of(self.digits) as int)
        } else {
            num_of(self.digits) as int
        }
    }
}

impl Answer {
    pub open spec fn wf(&self) -> bool {
        self@.wf()
    }
}

/// Why a line of text is not an answer.
#[derive(Clone, Copy, Debug, PartialEq, Eq, Structural)]
pub enum AnswerError {
    /// The text is not a decimal number.
    NotANumber,
}

/// property.
pub open spec fn is_blank(c: char) -> bool {
    let u = c as u32;
    u == 0x20 || (0x09 <= u <= 0x0d) || u == 0x85 || u == 0xa0 || u == 0x1680 || (0x2000 <= u
        <= 0x200a) || u == 0x2028 || u == 0x2029 || u == 0x202f || u == 0x205f || u == 0x3000
}

fn blank(c: char) -> (r: bool)
    ensures
        r == is_blank(c),
{
    let u = c as u32;
    u == 0x20 || (0x09 <= u && u <= 0x0d) || u == 0x85 || u == 0xa0 || u == 0x1680 || (0x2000
        <= u && u <= 0x200a) || u == 0x2028 || u == 0x2029 || u == 0x202f || u == 0x205f || u
        == 0x3000
}

/// How many blank characters `s` starts with.
pub open spec fn leading_blanks(s: Seq<char>) -> nat
    decreases s.len(),
{
    if s.len() > 0 && is_blank(s[0]) {
        1 + leading_blanks(s.drop_first())
    } else {
        0
    }
}

/// How many blank characters `s` ends with.
pub open spec fn trailing_blanks(s: Seq<char>) -> nat
    decreases s.len(),
{
    if s.len() > 0 && is_blank(s.last()) {
        1 + trailing_blanks(s.drop_last())
    } else {
        0
    }
}

/// `s` without its leading and trailing blanks.
pub open spec fn trimmed(s: Seq<char>) -> Seq<char> {
    let a = s.subrange(leading_blanks(s) as int, s.len() as int);
    a.subrange(0, a.len() - trailing_blanks(a))
}

pub open spec fn is_digit(c: char) -> bool {
    '0' <= c <= '9'
}

pub open spec fn digit_value(c: char) -> nat {
    (c as u32 - '0' as u32) as nat
}

/// The values of the digits of `u`, in order.
pub open spec fn digit_seq(u: Seq<char>) -> Seq<u8>
    decreases u.len(),
{
    if u.len() == 0 {
        Seq::empty()
    } else if is_digit(u.last()) {
        digit_seq(u.drop_last()).push(digit_value(u.last()) as u8)
    } else {
        digit_seq(u.drop_last())
    }
}

/// The number of decimal points in `u`.
pub open spec fn dot_count(u: Seq<char>) -> nat
    decreases u.len(),
{
    if u.len() == 0 {
        0
    } else if u.last() == '.' {
        dot_count(u.drop_last()) + 1
    } else {
        dot_count(u.drop_last())
    }
}

/// The number of digits after the first decimal point of `u`.
pub open spec fn fraction_digits(u: Seq<char>) -> nat
    decreases u.len(),
{
    if u.len() == 0 {
        0
    } else if dot_count(u.drop_last()) > 0 && is_digit(u.last()) {
        fraction_digits(u.drop_last()) + 1
    } else {
        fraction_digits(u.drop_last())
    }
}

/// Digits with at most one decimal point among them, and at least one digit.
pub open spec fn is_unsigned_decimal(u: Seq<char>) -> bool {
    &&& forall|i: int| 0 <= i < u.len() ==> is_digit(#[trigger] u[i]) || u[i] == '.'
    &&& dot_count(u) <= 1
    &&& digit_seq(u).len() >= 1
}

/// The length of the sign that starts `t`: one for `+` or `-`, else zero.
pub open spec fn sign_len(t: Seq<char>) -> int {
    if t.len() > 0 && (t[0] == '+' || t[0] == '-') {
        1
    } else {
        0
    }
}

/// The trimmed text of an answer without its sign.
pub open spec fn unsigned_part(s: Seq<char>) -> Seq<char> {
    let t = trimmed(s);
    t.subrange(sign_len(t), t.len() as int)
}

pub open spec fn is_negative_text(s: Seq<char>) -> bool {
    let t = trimmed(s);
    t.len() > 0 && t[0] == '-'
}

/// The outcome of reading the line `s` as an answer: a decimal number, with

/// The outcome of reading the line `s` as an answer: a decimal number, with
/// an optional sign and an optional fractional part, amid blanks. Any number
/// of digits is read.
pub open spec fn answer_of(s: Seq<char>) -> Result<AnswerView, AnswerError> {
    let u = unsigned_part(s);
    if !is_unsigned_decimal(u) {
        Err(AnswerError::NotANumber)
    } else {
        Ok(
            AnswerView {
                negative: is_negative_text(s),
                digits: digit_seq(u),
                scale: fraction_digits(u),
            },
        )
    }
}

proof fn lemma_fraction_digits_bound(u: Seq<char>)
    ensures
        fraction_digits(u) <= digit_seq(u).len(),
    decreases u.len(),
{
    if u.len() > 0 {
        lemma_fraction_digits_bound(u.drop_last());
    }
}

fn chars_of(s: &str) -> (v: Vec<char>)
    ensures
        v@ == s@,
{
    let n = s.unicode_len();
    let mut v: Vec<char> = Vec::new();
    let mut i: usize = 0;
    while i < n
        invariant
            n == s@.len(),
            i <= n,
            v@ == s@.subrange(0, i as int),
        decreases n - i,
    {
        v.push(s.get_char(i));
        i = i + 1;
        assert(v@ =~= s@.subrange(0, i as int));
    }
    assert(v@ =~= s@);
    v
}

/// The bounds `(lo, hi)` of `v` without its leading and trailing blanks.
fn trim_bounds(v: &Vec<char>) -> (r: (usize, usize))
    ensures
        r.0 <= r.1 <= v@.len(),
        v@.subrange(r.0 as int, r.1 as int) == trimmed(v@),
{
    let n = v.len();
    let mut lo: usize = 0;
    assert(v@.subrange(0, n as int) =~= v@);
    while lo < n && blank(v[lo])
        invariant
            n == v@.len(),
            lo <= n,
            leading_blanks(v@) == lo + leading_blanks(v@.subrange(lo as int, n as int)),
        decreases n - lo,
    {
        assert(v@.subrange(lo as int, n as int).drop_first() =~= v@.subrange(
            lo + 1,
            n as int,
        ));
        lo = lo + 1;
    }
    let ghost a = v@.subrange(lo as int, n as int);
    assert(leading_blanks(a) == 0);
    let mut hi: usize = n;
    while hi > lo && blank(v[hi - 1])
        invariant
            n == v@.len(),
            lo <= hi <= n,
            a == v@.subrange(lo as int, n as int),
            trailing_blanks(a) == (n - hi) + trailing_blanks(v@.subrange(lo as int, hi as int)),
        decreases hi,
    {
        assert(v@.subrange(lo as int, hi as int).drop_last() =~= v@.subrange(
            lo as int,
            hi - 1,
        ));
        hi = hi - 1;
    }
    assert(trailing_blanks(v@.subrange(lo as int, hi as int)) == 0);
    assert(a.subrange(0, a.len() - trailing_blanks(a)) =~= v@.subrange(lo as int, hi as int));
    (lo, hi)
}

/// Reads one line of input as an answer.
pub fn parse_answer(line: &str) -> (r: Result<Answer, AnswerError>)
    ensures
        match (r, answer_of(line@)) {
            (Ok(a), Ok(v)) => a@ == v && a.wf(),
            (Err(e), Err(f)) => e == f,
            _ => false,
        },
{
    let v = chars_of(line);
    let (lo, hi) = trim_bounds(&v);
    let negative = lo < hi && v[lo] == '-';
    let start = if lo < hi && (v[lo] == '+' || v[lo] == '-') {
        lo + 1
    } else {
        lo
    };
    let ghost u = v@.subrange(start as int, hi as int);
    assert(u =~= unsigned_part(line@));
    let mut all_ok = true;
    let mut dots: usize = 0;
    let mut frac: usize = 0;
    let mut digits: Vec<u8> = Vec::new();
    let mut i: usize = start;
    while i < hi
        invariant
            start <= i <= hi <= v@.len(),
            u == v@.subrange(start as int, hi as int),
            all_ok == (forall|j: int| start <= j < i ==> is_digit(#[trigger] v@[j]) || v@[j] == '.'),
            dots == dot_count(v@.subrange(start as int, i as int)),
            digits@ == digit_seq(v@.subrange(start as int, i as int)),
            frac == fraction_digits(v@.subrange(start as int, i as int)),
            all_digits(digits@),
            frac <= digits.len() <= i - start,
            dots <= i - start,
        decreases hi - i,
    {
        let ghost p = v@.subrange(start as int, i as int);
        let ghost q = v@.subrange(start as int, i + 1);
        assert(q.drop_last() =~= p);
        proof {
            lemma_fraction_digits_bound(p);
        }
        let c = v[i];
        if '0' <= c && c <= '9' {
            digits.push((c as u32 - '0' as u32) as u8);
            if dots > 0 {
                frac = frac + 1;
            }
        } else if c == '.' {
            dots = dots + 1;
        } else {
            all_ok = false;
        }
        i = i + 1;
    }
    assert(v@.subrange(start as int, hi as int) =~= u);
    if !all_ok || dots > 1 || digits.len() == 0 {
        assert(!is_unsigned_decimal(u)) by {
            if !all_ok {
                let j = choose|j: int| start <= j < hi && !(is_digit(#[trigger] v@[j]) || v@[j] == '.');
                assert(u[j - start] == v@[j]);
            }
        }
        Err(AnswerError::NotANumber)
    } else {
        proof {
            assert forall|j: int| 0 <= j < u.len() implies is_digit(#[trigger] u[j]) || u[j]
                == '.' by {
                assert(u[j] == v@[j + start]);
            }
        }
        Ok(Answer { negative, digits, scale: frac })
    }
}

proof fn lemma_ten_pow_le(a: nat, b: nat)
    requires
        a <= b,
    ensures
        0 < ten_pow(a) <= ten_pow(b),
    decreases b,
{
    if a < b {
        lemma_ten_pow_le(a, (b - 1) as nat);
    } else if a > 0 {
        lemma_ten_pow_le((a - 1) as nat, (a - 1) as nat);
    }
}

pub open spec fn magnitude(x: int) -> int {
    if x < 0 {
        -x
    } else {
        x
    }
}

/// Whether `x` lies within one hundredth of `f`: `|x - f| < 1/100`, both

/// Whether `x` lies within one hundredth of `f`: `|x - f| < 1/100`, both
/// sides multiplied by `100 * |f.den| * 10^x.scale`.
pub open spec fn within_tolerance(x: AnswerView, f: Fraction) -> bool {
    100 * magnitude(x.mantissa() * f.den - f.num * ten_pow(x.scale)) < magnitude(f.den as int)
        * ten_pow(x.scale)
}

/// Whether `x` and `f` are the same number.
pub open spec fn same_value(x: AnswerView, f: Fraction) -> bool {
    x.mantissa() * f.den == f.num * ten_pow(x.scale)
}

proof fn lemma_num_of_concat(a: Seq<u8>, b: Seq<u8>)
    ensures
        num_of(a + b) == num_of(a) * ten_pow(b.len()) + num_of(b),
    decreases b.len(),
{
    if b.len() == 0 {
        assert(a + b =~= a);
        assert(ten_pow(b.len()) == 1);
        assert(num_of(b) == 0);
    } else {
        lemma_num_of_concat(a, b.drop_last());
        assert((a + b).drop_last() =~= a + b.drop_last());
        let x = num_of(a);
        let p = ten_pow((b.len() - 1) as nat);
        let y = num_of(b.drop_last());
        assert((a + b).last() == b.last());
        assert(num_of(a + b) == num_of(a + b.drop_last()) * 10 + b.last() as nat);
        assert(num_of(b) == y * 10 + b.last() as nat);
        assert(ten_pow(b.len()) == 10 * p);
        assert((x * p + y) * 10 == x * (10 * p) + y * 10) by (nonlinear_arith);
        assert(num_of(a + b.drop_last()) == x * p + y);
        assert(num_of(a + b) == (x * p + y) * 10 + b.last() as nat);
        assert(num_of(a) * ten_pow(b.len()) == x * (10 * p));
    }
}

proof fn lemma_num_of_bound(b: Seq<u8>)
    requires
        all_digits(b),
    ensures
        num_of(b) < ten_pow(b.len()),
    decreases b.len(),
{
    if b.len() > 0 {
        assert(all_digits(b.drop_last())) by {
            assert forall|i: int| 0 <= i < b.len() - 1 implies #[trigger] b.drop_last()[i] < 10 by {
                assert(b.drop_last()[i] == b[i]);
            }
        }
        lemma_num_of_bound(b.drop_last());
        assert(b[b.len() - 1] < 10);
    }
}

/// The whole part beyond which an answer is far from every solution.
pub const WHOLE_CAP: u128 = 0x1_0000_0000_0000_0000;

/// For an answer of digits `X` and scale `k`, and a factor `c`: the whole part
/// of `c * X / 10^k` and whether that quotient is exact; or, as the third
/// component, that the whole part `X / 10^k` itself exceeds `WHOLE_CAP`.
///
/// The digits after the point are taken from the last to the first, so that
/// every intermediate value stays below `10 * c`.
fn scaled_floor(a: &Answer, c: i128) -> (r: (i128, bool, bool))
    requires
        a.wf(),
        1 <= c <= 100 * 0x8000_0000,
    ensures
        r.2 ==> num_of(a@.digits) >= (WHOLE_CAP + 1) * ten_pow(a@.scale),
        !r.2 ==> r.0 == (c * num_of(a@.digits)) / (ten_pow(a@.scale) as int),
        !r.2 ==> r.1 == ((c * num_of(a@.digits)) % (ten_pow(a@.scale) as int) == 0),
{
    let ghost ds = a.digits@;
    let n = a.digits.len();
    let w = n - a.scale;
    let ghost whole = ds.subrange(0, w as int);
    let ghost fr = ds.subrange(w as int, n as int);
    assert(ds =~= whole + fr);
    proof {
        lemma_num_of_concat(whole, fr);
        assert(all_digits(fr)) by {
            assert forall|i: int| 0 <= i < fr.len() implies #[trigger] fr[i] < 10 by {
                assert(fr[i] == ds[i + w]);
            }
        }
        lemma_num_of_bound(fr);
    }
    let mut whole_value: u128 = 0;
    let mut huge = false;
    let mut i: usize = 0;
    assert(ds.subrange(0, 0).len() == 0);
    while i < w
        invariant
            ds == a.digits@,
            all_digits(ds),
            i <= w <= n == ds.len(),
            huge == (num_of(ds.subrange(0, i as int)) > WHOLE_CAP),
            !huge ==> whole_value == num_of(ds.subrange(0, i as int)),
        decreases w - i,
    {
        assert(ds.subrange(0, i + 1).drop_last() =~= ds.subrange(0, i as int));
        let d = a.digits[i];
        assert(d < 10);
        if !huge {
            let next = whole_value * 10 + d as u128;
            if next > WHOLE_CAP {
                huge = true;
            } else {
                whole_value = next;
            }
        }
        i = i + 1;
    }
    assert(ds.subrange(0, w as int) == whole);
    let ghost p = ten_pow(a@.scale);
    let ghost big_x = num_of(ds);
    proof {
        lemma_ten_pow_le(0, a@.scale);
        assert(fr.len() == a@.scale);
    }
    if huge {
        assert(big_x >= (WHOLE_CAP + 1) * p) by (nonlinear_arith)
            requires
                big_x == num_of(whole) * p + num_of(fr),
                num_of(whole) >= WHOLE_CAP + 1,
                p > 0,
                num_of(fr) >= 0,
        ;
        return (0, false, true);
    }
    let mut t: i128 = 0;
    let mut exact = true;
    let mut j: usize = n;
    assert(ds.subrange(n as int, n as int) =~= Seq::<u8>::empty());
    assert(ten_pow(0) == 1);
    while j > w
        invariant
            ds == a.digits@,
            all_digits(ds),
            w <= j <= n == ds.len(),
            1 <= c <= 100 * 0x8000_0000,
            0 <= t < c,
            t == (c * num_of(ds.subrange(j as int, n as int))) / (ten_pow((n - j) as nat) as int),
            exact == ((c * num_of(ds.subrange(j as int, n as int))) % (ten_pow(
                (n - j) as nat,
            ) as int) == 0),
        decreases j,
    {
        let d = a.digits[j - 1];
        assert(d < 10);
        let ghost m = (n - j) as nat;
        let ghost pm = ten_pow(m) as int;
        let ghost tail = ds.subrange(j as int, n as int);
        let ghost longer = ds.subrange(j - 1, n as int);
        assert(longer =~= seq![d] + tail);
        proof {
            lemma_num_of_concat(seq![d], tail);
            assert(seq![d].drop_last() =~= Seq::<u8>::empty());
            assert(num_of(Seq::<u8>::empty()) == 0);
            assert(seq![d].last() == d);
            assert(num_of(seq![d]) == num_of(seq![d].drop_last()) * 10 + d as nat);
            assert(num_of(seq![d]) == d);
            assert(tail.len() == m);
            assert(num_of(longer) == d * pm + num_of(tail));
            lemma_ten_pow_le(0, m);
        }
        assert(0 <= c * d <= 9 * c) by (nonlinear_arith)
            requires
                0 <= d < 10,
                c >= 1,
        ;
        let big_q = c * d as i128 + t;
        assert(big_q < 10 * c) by (nonlinear_arith)
            requires
                0 <= d < 10,
                0 <= t < c,
                c >= 1,
                c * d <= 9 * c,
                big_q == c * d + t,
        ;
        let ghost r0 = (c * num_of(tail)) % pm;
        proof {
            vstd::arithmetic::div_mod::lemma_fundamental_div_mod(c * num_of(tail), pm);
            let z = c * num_of(longer);
            assert(z == big_q * pm + r0) by (nonlinear_arith)
                requires
                    z == c * (d * pm + num_of(tail)),
                    c * num_of(tail) == pm * t + r0,
                    big_q == c * d + t,
            ;
            vstd::arithmetic::div_mod::lemma_fundamental_div_mod(big_q as int, 10);
            let q10 = big_q / 10;
            let m10 = big_q % 10;
            assert(0 <= m10 * pm + r0 < 10 * pm) by (nonlinear_arith)
                requires
                    0 <= m10 < 10,
                    0 <= r0 < pm,
            ;
            assert(z == q10 * (10 * pm) + (m10 * pm + r0)) by (nonlinear_arith)
                requires
                    z == big_q * pm + r0,
                    big_q == 10 * q10 + m10,
            ;
            assert(ten_pow((m + 1) as nat) == 10 * pm);
            vstd::arithmetic::div_mod::lemma_fundamental_div_mod_converse(
                z,
                10 * pm,
                q10,
                m10 * pm + r0,
            );
            assert((m10 * pm + r0 == 0) == (m10 == 0 && r0 == 0)) by (nonlinear_arith)
                requires
                    0 <= m10,
                    0 <= r0,
                    pm > 0,
            ;
        }
        exact = exact && big_q % 10 == 0;
        t = big_q / 10;
        j = j - 1;
    }
    assert(ds.subrange(w as int, n as int) == fr);
    let ghost r0 = (c * num_of(fr)) % (p as int);
    proof {
        vstd::arithmetic::div_mod::lemma_fundamental_div_mod(c * num_of(fr), p as int);
        assert(c * big_x == (c * whole_value + t) * p + r0) by (nonlinear_arith)
            requires
                big_x == whole_value * p + num_of(fr),
                c * num_of(fr) == p * t + r0,
        ;
        vstd::arithmetic::div_mod::lemma_fundamental_div_mod_converse(
            c * big_x,
            p as int,
            c * whole_value + t,
            r0,
        );
    }
    assert(c * whole_value <= 100 * 0x8000_0000 * WHOLE_CAP) by (nonlinear_arith)
        requires
            1 <= c <= 100 * 0x8000_0000,
            whole_value <= WHOLE_CAP,
    ;
    (c * whole_value as i128 + t, exact, false)
}

proof fn lemma_window(y: int, p: int, q: int, r: int, lo: int, hi: int)
    requires
        p > 0,
        y == q * p + r,
        0 <= r < p,
    ensures
        (lo * p < y) == (lo < q || (lo == q && r > 0)),
        (y < hi * p) == (q < hi),
{
    if lo < q {
        assert(lo * p <= q * p - p) by (nonlinear_arith)
            requires
                lo <= q - 1,
                p > 0,
        ;
    } else if lo > q {
        assert(lo * p >= q * p + p) by (nonlinear_arith)
            requires
                lo >= q + 1,
                p > 0,
        ;
    }
    if q < hi {
        assert(hi * p >= q * p + p) by (nonlinear_arith)
            requires
                hi >= q + 1,
                p > 0,
        ;
    } else {
        assert(hi * p <= q * p) by (nonlinear_arith)
            requires
                hi <= q,
                p > 0,
        ;
    }
}

/// An answer whose whole part exceeds `WHOLE_CAP` is farther than `p * d`
/// from every `n / d`, scaled by `d * p`.
proof fn lemma_far_off(x: int, m: int, d: int, n: int, p: int)
    requires
        x >= (WHOLE_CAP + 1) * p,
        m == x || m == -x,
        1 <= d <= 0x8000_0000,
        -0x8000_0000_0000_0000 <= n <= 0x8000_0000_0000_0000,
        p > 0,
    ensures
        magnitude(m * d - n * p) > d * p,
        m * d != n * p,
{
    assert(x * d >= x) by (nonlinear_arith)
        requires
            d >= 1,
            x >= 0,
    ;
    assert(-(0x8000_0000_0000_0000 * p) <= n * p <= 0x8000_0000_0000_0000 * p) by (nonlinear_arith)
        requires
            -0x8000_0000_0000_0000 <= n <= 0x8000_0000_0000_0000,
            p > 0,
    ;
    assert(d * p <= 0x8000_0000 * p) by (nonlinear_arith)
        requires
            d <= 0x8000_0000,
            p > 0,
    ;
    assert(m * d == x * d || m * d == -(x * d)) by (nonlinear_arith)
        requires
            m == x || m == -x,
    ;
    assert(x >= 0x1_0000_0000_0000_0001 * p);
    let e = m * d - n * p;
    if m * d == x * d {
        assert(e > d * p);
    } else {
        assert(-e > d * p);
    }
}

/// `solution` with a positive denominator: `(n, d)` with `n / d == num / den`.
fn normalized(solution: Fraction) -> (r: (i128, i128))
    requires
        solution.wf(),
    ensures
        1 <= r.1 <= 0x8000_0000,
        r.1 == magnitude(solution.den as int),
        -0x8000_0000_0000_0000 <= r.0 <= 0x8000_0000_0000_0000,
        solution.den > 0 ==> r.0 == solution.num,
        solution.den < 0 ==> r.0 == -solution.num,
{
    if solution.den < 0 {
        (-(solution.num as i128), -(solution.den as i128))
    } else {
        (solution.num as i128, solution.den as i128)
    }
}

/// Whether `answer` is within one hundredth of `solution`.
pub fn check_answer(answer: &Answer, solution: Fraction) -> (r: bool)
    requires
        answer.wf(),
        solution.wf(),
    ensures
        r == within_tolerance(answer@, solution),
{
    let (n, d) = normalized(solution);
    let c = 100 * d;
    let (q, exact, huge) = scaled_floor(answer, c);
    let ghost v = answer@;
    let ghost p = ten_pow(v.scale) as int;
    let ghost x = num_of(v.digits) as int;
    let ghost m = v.mantissa();
    let ghost e = m * d - n * p;
    proof {
        lemma_ten_pow_le(0, v.scale);
        // the tolerance test over the positive denominator d
        if solution.den < 0 {
            assert(m * solution.den - solution.num * p == -e) by (nonlinear_arith)
                requires
                    d == -solution.den,
                    n == -solution.num,
                    e == m * d - n * p,
            ;
        }
        assert(magnitude(m * solution.den - solution.num * p) == magnitude(e));
    }
    if huge {
        proof {
            lemma_far_off(x, m, d as int, n as int, p);
        }
        return false;
    }
    let lo = 100 * n - d;
    let hi = 100 * n + d;
    proof {
        let y = c * x;
        vstd::arithmetic::div_mod::lemma_fundamental_div_mod(y, p);
        vstd::arithmetic::div_mod::lemma_mod_pos_bound(y, p);
        let rem = y % p;
        assert(y == q * p + rem) by (nonlinear_arith)
            requires
                y == p * q + rem,
        ;
        assert(lo * p == 100 * (n * p) - d * p) by (nonlinear_arith)
            requires
                lo == 100 * n - d,
        ;
        assert(hi * p == 100 * (n * p) + d * p) by (nonlinear_arith)
            requires
                hi == 100 * n + d,
        ;
        if v.negative {
            assert(100 * (m * d) == -y) by (nonlinear_arith)
                requires
                    y == c * x,
                    c == 100 * d,
                    m == -x,
            ;
        } else {
            assert(100 * (m * d) == y) by (nonlinear_arith)
                requires
                    y == c * x,
                    c == 100 * d,
                    m == x,
            ;
        }
        lemma_window(y, p, q as int, rem, lo as int, hi as int);
        lemma_window(y, p, q as int, rem, -hi, -lo);
        assert((-lo) * p == -(lo * p)) by (nonlinear_arith);
        assert((-hi) * p == -(hi * p)) by (nonlinear_arith);
    }
    if !answer.negative {
        (lo < q || (lo == q && !exact)) && q < hi
    } else {
        (-hi < q || (-hi == q && !exact)) && q < -lo
    }
}

/// Whether `answer` is exactly `solution`.
pub fn check_answer_exact(answer: &Answer, solution: Fraction) -> (r: bool)
    requires
        answer.wf(),
        solution.wf(),
    ensures
        r == same_value(answer@, solution),
{
    let (n, d) = normalized(solution);
    let (q, exact, huge) = scaled_floor(answer, d);
    let ghost v = answer@;
    let ghost p = ten_pow(v.scale) as int;
    let ghost x = num_of(v.digits) as int;
    let ghost m = v.mantissa();
    proof {
        lemma_ten_pow_le(0, v.scale);
        if solution.den < 0 {
            assert(m * solution.den == -(m * d) && solution.num * p == -(n * p)) by (nonlinear_arith)
                requires
                    d == -solution.den,
                    n == -solution.num,
            ;
        }
    }
    if huge {
        proof {
            lemma_far_off(x, m, d as int, n as int, p);
        }
        return false;
    }
    let target = if answer.negative {
        -n
    } else {
        n
    };
    proof {
        let y = d * x;
        vstd::arithmetic::div_mod::lemma_fundamental_div_mod(y, p);
        vstd::arithmetic::div_mod::lemma_mod_pos_bound(y, p);
        if v.negative {
            assert(m * d == -y && (m * d == n * p) == (y == target * p)) by (nonlinear_arith)
                requires
                    y == d * x,
                    m == -x,
                    target == -n,
            ;
        } else {
            assert(m * d == y && (m * d == n * p) == (y == target * p)) by (nonlinear_arith)
                requires
                    y == d * x,
                    m == x,
                    target == n,
            ;
        }
        if exact && q == target {
            assert(y == target * p) by (nonlinear_arith)
                requires
                    y == p * q + 0,
                    q == target,
            ;
        }
        if y == target * p {
            vstd::arithmetic::div_mod::lemma_fundamental_div_mod_converse(y, p, target as int, 0);
        }
    }
    exact && q == target
}

/// `|num / den|` rounded half up to hundredths, for a fraction whose value is
/// not a whole number: `(200 |num| + |den|) / (2 |den|)`.
pub open spec fn hundredths(f: Fraction) -> nat {
    ((200 * magnitude(f.num as int) + magnitude(f.den as int)) / (2 * magnitude(
        f.den as int,
    ))) as nat
}

pub open spec fn is_negative_fraction(f: Fraction) -> bool {
    (f.num < 0) != (f.den < 0)
}

/// How a solution is shown: a whole number as it is, any other value rounded
/// to two decimal places, as in `0.67` or `-1.25`; a minus sign only where the
/// text is not zero.
pub open spec fn solution_text_of(f: Fraction) -> Seq<char> {
    let n = magnitude(f.num as int);
    let d = magnitude(f.den as int);
    if n % d == 0 {
        (if is_negative_fraction(f) && n > 0 {
            seq!['-']
        } else {
            seq![]
        }) + nat_text((n / d) as nat)
    } else {
        let h = hundredths(f);
        (if is_negative_fraction(f) && h > 0 {
            seq!['-']
        } else {
            seq![]
        }) + nat_text(h / 100) + seq!['.', digit_char(((h % 100) / 10) as int), digit_char((h % 10) as int)]
    }
}

/// The text that shows `solution` to the user.
pub fn solution_text(solution: Fraction) -> (r: String)
    requires
        solution.wf(),
    ensures
        r@ == solution_text_of(solution),
{
    let n: u128 = if solution.num < 0 {
        (-(solution.num as i128)) as u128
    } else {
        solution.num as u128
    };
    let d: u128 = if solution.den < 0 {
        (-(solution.den as i128)) as u128
    } else {
        solution.den as u128
    };
    let negative = (solution.num < 0) != (solution.den < 0);
    let mut s = String::new();
    proof {
        reveal_strlit("-");
        reveal_strlit(".");
    }
    if n % d == 0 {
        if negative && n > 0 {
            s.append("-");
        }
        assert(n / d <= n) by (nonlinear_arith)
            requires
                d >= 1,
        ;
        append_nat(&mut s, (n / d) as u64);
        assert(s@ =~= solution_text_of(solution));
    } else {
        let h = (200 * n + d) / (2 * d);
        assert(h <= 100 * n + 1) by (nonlinear_arith)
            requires
                d >= 1,
                h == (200 * n + d) / (2 * d),
        ;
        if negative && h > 0 {
            s.append("-");
        }
        append_nat(&mut s, (h / 100) as u64);
        s.append(".");
        s.append(digit_text(((h % 100) / 10) as u64));
        s.append(digit_text((h % 10) as u64));
        assert(s@ =~= solution_text_of(solution));
    }
    s
}

} // verus!


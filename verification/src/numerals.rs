//! Decimal notation of doubles and of ratios.
use vstd::prelude::*;
use crate::double;
use crate::double::Double;
use crate::text;
use vstd::string::StringExecFns;

verus! {

/// The absolute value of a finite double times `factor`, rounded to the nearest
/// integer, and to the even one of two nearest.
pub open spec fn nearest_multiple(d: Double, factor: nat) -> nat {
    if d.scale() >= 1074 {
        d.significand() * double::two((d.scale() - 1074) as nat) * factor
    } else {
        double::nearest_quotient(d.significand() * factor, (1074 - d.scale()) as nat)
    }
}

/// What stands before the digits of a double, or in their place.
pub open spec fn sign_or_name(d: Double) -> Seq<char> {
    if d.is_nan() {
        seq!['N', 'a', 'N']
    } else if d.exponent() == 2047 {
        if d.negative() {
            seq!['-', 'i', 'n', 'f']
        } else {
            seq!['i', 'n', 'f']
        }
    } else if d.negative() {
        seq!['-']
    } else {
        seq![]
    }
}

/// A double without decimals.
pub open spec fn fixed0(d: Double) -> Seq<char> {
    if d.exponent() == 2047 {
        sign_or_name(d)
    } else {
        sign_or_name(d) + text::decimal(nearest_multiple(d, 1))
    }
}

/// A double with two decimals.
pub open spec fn fixed2(d: Double) -> Seq<char> {
    if d.exponent() == 2047 {
        sign_or_name(d)
    } else {
        let n = nearest_multiple(d, 100);
        sign_or_name(d) + (text::decimal(n / 100) + seq![
            '.',
            text::digit_char(n / 10 % 10),
            text::digit_char(n % 10),
        ])
    }
}

// ── Large whole numbers ─────────────────────────────────────────────────

/// The number with the given decimal digits, the last one counting most.
spec fn digits_number(digits: Seq<u8>) -> nat
    decreases digits.len(),
{
    if digits.len() == 0 {
        0
    } else {
        digits[0] as nat + 10 * digits_number(digits.skip(1))
    }
}

spec fn well_formed(digits: Seq<u8>) -> bool {
    &&& digits.len() > 0
    &&& forall|i: int| 0 <= i < digits.len() ==> #[trigger] digits[i] < 10
    &&& digits.len() > 1 ==> digits.last() > 0
}

/// The digits in the order of writing.
spec fn written(digits: Seq<u8>) -> Seq<char>
    decreases digits.len(),
{
    if digits.len() == 0 {
        Seq::empty()
    } else {
        written(digits.skip(1)).push(text::digit_char(digits[0] as nat))
    }
}

proof fn lemma_written(digits: Seq<u8>)
    requires
        well_formed(digits),
    ensures
        written(digits) == text::decimal(digits_number(digits)),
        digits.len() > 1 || digits[0] > 0 ==> digits_number(digits) > 0,
    decreases digits.len(),
{
    let rest = digits.skip(1);
    assert(digits[0] < 10);
    if digits.len() == 1 {
        assert(rest =~= Seq::<u8>::empty());
        assert(digits_number(rest) == 0);
        assert(written(rest) =~= Seq::<char>::empty());
        assert(written(digits) =~= seq![text::digit_char(digits[0] as nat)]);
    } else {
        assert(rest.last() == digits.last());
        assert forall|i: int| 0 <= i < rest.len() implies #[trigger] rest[i] < 10 by {
            assert(digits[i + 1] < 10);
        }
        lemma_written(rest);
        assert(rest.len() == 1 ==> rest[0] == digits.last());
        let n = digits_number(digits);
        assert(n / 10 == digits_number(rest) && n % 10 == digits[0] as nat);
    }
}

proof fn lemma_digits_push(digits: Seq<u8>, d: u8)
    ensures
        digits_number(digits.push(d)) == digits_number(digits) + d * ten(digits.len()),
    decreases digits.len(),
{
    if digits.len() == 0 {
        assert(digits.push(d).skip(1) =~= Seq::<u8>::empty());
        assert(digits_number(digits.push(d).skip(1)) == 0);
        assert(digits.push(d)[0] == d);
        assert(d * ten(0) == d) by (nonlinear_arith)
            requires
                ten(0) == 1,
        ;
    } else {
        let rest = digits.skip(1);
        assert(digits.push(d).skip(1) =~= rest.push(d));
        lemma_digits_push(rest, d);
        assert(digits.push(d)[0] == digits[0]);
        assert(10 * (d * ten(rest.len())) == d * ten(digits.len())) by (nonlinear_arith)
            requires
                ten(digits.len()) == 10 * ten(rest.len()),
        ;
    }
}

/// 10 to the power of `k`.
pub open spec fn ten(k: nat) -> nat
    decreases k,
{
    if k == 0 {
        1
    } else {
        10 * ten((k - 1) as nat)
    }
}

proof fn lemma_digits_take(digits: Seq<u8>, n: int)
    requires
        0 <= n < digits.len(),
    ensures
        digits_number(digits.take(n + 1)) == digits_number(digits.take(n)) + digits[n] * ten(
            n as nat,
        ),
{
    lemma_digits_push(digits.take(n), digits[n]);
    assert(digits.take(n).push(digits[n]) =~= digits.take(n + 1));
}

fn doubled(digits: &Vec<u8>) -> (r: Vec<u8>)
    requires
        well_formed(digits@),
    ensures
        well_formed(r@),
        digits_number(r@) == 2 * digits_number(digits@),
{
    let mut r: Vec<u8> = Vec::new();
    let mut carry: u8 = 0;
    let mut i: usize = 0;
    while i < digits.len()
        invariant
            i <= digits@.len(),
            well_formed(digits@),
            carry <= 1,
            r@.len() == i,
            forall|j: int| 0 <= j < i ==> #[trigger] r@[j] < 10,
            digits_number(r@) + carry * ten(i as nat) == 2 * digits_number(
                digits@.take(i as int),
            ),
            i == digits@.len() && i > 1 ==> r@[i - 1] > 0 || carry > 0,
        decreases digits@.len() - i,
    {
        assert(digits@[i as int] < 10);
        let sum: u8 = 2 * digits[i] + carry;
        let d: u8 = sum % 10;
        let next: u8 = sum / 10;
        proof {
            lemma_digits_take(digits@, i as int);
            lemma_digits_push(r@, d);
            let (p, x, c) = (ten(i as nat) as int, digits@[i as int] as int, carry as int);
            assert(ten((i + 1) as nat) == 10 * p);
            assert(d * p + next * (10 * p) == c * p + 2 * (x * p) - c * p + c * p) by (nonlinear_arith)
                requires
                    10 * next + d == 2 * x + c,
            ;
        }
        r.push(d);
        carry = next;
        i = i + 1;
    }
    assert(digits@.take(i as int) =~= digits@);
    if carry > 0 {
        proof {
            lemma_digits_push(r@, carry);
        }
        r.push(carry);
    }
    r
}

/// Appends the decimal notation of `n` times a power of two.
fn push_scaled(out: &mut String, n: u64, power: u32)
    ensures
        final(out)@ == old(out)@ + text::decimal(n as nat * double::two(power as nat)),
{
    let mut digits: Vec<u8> = Vec::new();
    let mut rest: u64 = n;
    proof {
        assert(n as nat == digits_number(digits@) + rest * ten(0)) by (nonlinear_arith)
            requires
                ten(0) == 1,
                digits_number(digits@) == 0,
                n == rest,
        ;
    }
    digits.push((rest % 10) as u8);
    rest = rest / 10;
    proof {
        assert(digits@.skip(1) =~= Seq::<u8>::empty());
        assert(digits_number(digits@.skip(1)) == 0);
        assert(ten(1) == 10 * ten(0));
        assert(ten(0) == 1);
    }
    while rest > 0
        invariant
            digits@.len() > 0,
            forall|j: int| 0 <= j < digits@.len() ==> #[trigger] digits@[j] < 10,
            n as nat == digits_number(digits@) + rest * ten(digits@.len()),
            rest == 0 && digits@.len() > 1 ==> digits@.last() > 0,
        decreases rest,
    {
        let d: u8 = (rest % 10) as u8;
        proof {
            lemma_digits_push(digits@, d);
            let (p, q) = (ten(digits@.len()) as int, (rest / 10) as int);
            assert(rest * p == d * p + q * (10 * p)) by (nonlinear_arith)
                requires
                    rest == 10 * q + d,
            ;
        }
        digits.push(d);
        rest = rest / 10;
    }
    let mut i: u32 = 0;
    proof {
        vstd::arithmetic::power2::lemma2_to64();
        assert(n as nat * double::two(0) == n as nat) by (nonlinear_arith)
            requires
                double::two(0) == 1,
        ;
    }
    while i < power
        invariant
            i <= power,
            well_formed(digits@),
            digits_number(digits@) == n as nat * double::two(i as nat),
        decreases power - i,
    {
        digits = doubled(&digits);
        proof {
            vstd::arithmetic::power2::lemma_pow2_unfold((i + 1) as nat);
            assert(2 * (n as nat * double::two(i as nat)) == n as nat * (2 * double::two(
                i as nat,
            ))) by (nonlinear_arith);
        }
        i = i + 1;
    }
    proof {
        lemma_written(digits@);
        assert(digits@.skip(digits@.len() as int) =~= Seq::<u8>::empty());
    }
    let mut k: usize = digits.len();
    let ghost start = out@;
    while k > 0
        invariant
            k <= digits@.len(),
            forall|j: int| 0 <= j < digits@.len() ==> #[trigger] digits@[j] < 10,
            out@ == start + written(digits@.skip(k as int)),
        decreases k,
    {
        proof {
            assert(digits@.skip(k - 1).skip(1) =~= digits@.skip(k as int));
            assert(digits@.skip(k - 1)[0] == digits@[k - 1]);
        }
        let ch: char = (48 + digits[k - 1]) as char;
        out.push(ch);
        k = k - 1;
        assert(out@ =~= start + written(digits@.skip(k as int)));
    }
    assert(digits@.skip(0) =~= digits@);
}

// ── Doubles ─────────────────────────────────────────────────────────────

fn push_sign_or_name(out: &mut String, d: Double) -> (finite: bool)
    ensures
        final(out)@ == old(out)@ + sign_or_name(d),
        finite == (d.exponent() != 2047),
{
    let ghost start = out@;
    if d.nan() {
        out.push('N');
        out.push('a');
        out.push('N');
        assert(out@ =~= start + sign_or_name(d));
        return false;
    }
    if d.sign() {
        out.push('-');
    }
    if (d.bits / 0x10_0000_0000_0000) % 2048 == 2047 {
        out.push('i');
        out.push('n');
        out.push('f');
        assert(out@ =~= start + sign_or_name(d));
        false
    } else {
        assert(out@ =~= start + sign_or_name(d));
        true
    }
}

/// The nearest multiple of a double below 2 to the power of 53.
fn nearest_multiple_of(d: Double, factor: u64) -> (r: u64)
    requires
        d.scale() < 1074,
        factor == 1 || factor == 100,
    ensures
        r == nearest_multiple(d, factor as nat),
{
    let sig: u64 = double::significand_of(d);
    let k: u32 = 1074 - double::scale_of(d);
    let n: u64 = sig * factor;
    proof {
        double::lemma_two_below(0, k as nat);
        vstd::arithmetic::power2::lemma2_to64();
        vstd::arithmetic::power2::lemma2_to64_rest();
    }
    if k >= 62 {
        proof {
            double::lemma_two_below(62, k as nat);
            vstd::arithmetic::div_mod::lemma_basic_div(n as int, double::two(k as nat) as int);
            vstd::arithmetic::div_mod::lemma_small_mod(n as nat, double::two(k as nat));
        }
        0
    } else {
        let p: u128 = double::power_of_two(k);
        proof {
            double::lemma_two_below(k as nat, 62);
            vstd::arithmetic::div_mod::lemma_div_nonincreasing(n as int, p as int);
        }
        let q: u64 = ((n as u128) / p) as u64;
        let rest: u128 = (n as u128) % p;
        if 2 * rest > p || (2 * rest == p && q % 2 == 1) {
            q + 1
        } else {
            q
        }
    }
}

/// A double without decimals, as the format `{:.0}` writes it.
pub fn fixed0_of(d: Double) -> (r: String)
    ensures
        r@ == fixed0(d),
{
    let mut out = String::new();
    if push_sign_or_name(&mut out, d) {
        if double::scale_of(d) >= 1074 {
            let power: u32 = double::scale_of(d) - 1074;
            push_scaled(&mut out, double::significand_of(d), power);
            proof {
                let n = d.significand() * double::two(power as nat);
                assert(n * 1 == n);
            }
        } else {
            text::push_decimal(&mut out, nearest_multiple_of(d, 1));
        }
    }
    assert(out@ =~= fixed0(d));
    out
}

/// A double with two decimals, as the format `{:.2}` writes it.
pub fn fixed2_of(d: Double) -> (r: String)
    ensures
        r@ == fixed2(d),
{
    let mut out = String::new();
    if push_sign_or_name(&mut out, d) {
        if double::scale_of(d) >= 1074 {
            let power: u32 = double::scale_of(d) - 1074;
            push_scaled(&mut out, double::significand_of(d), power);
            out.push('.');
            out.push('0');
            out.push('0');
            proof {
                let n = d.significand() * double::two(power as nat);
                assert(n * 100 / 100 == n);
                assert((n * 100) / 10 % 10 == 0 && (n * 100) % 10 == 0) by (nonlinear_arith);
                assert(text::digit_char(0) == '0');
            }
        } else {
            let n: u64 = nearest_multiple_of(d, 100);
            text::push_decimal(&mut out, n / 100);
            out.push('.');
            let tens: u8 = (n / 10 % 10) as u8;
            let ones: u8 = (n % 10) as u8;
            out.push((48 + tens) as char);
            out.push((48 + ones) as char);
        }
    }
    assert(out@ =~= fixed2(d));
    out
}

// ── Ratios ──────────────────────────────────────────────────────────────

/// `n / d` rounded to the nearest integer, and to the even one of two nearest.
pub open spec fn nearest_ratio(n: nat, d: nat) -> nat {
    let q = n / d;
    let r = n % d;
    if 2 * r > d || (2 * r == d && q % 2 == 1) {
        q + 1
    } else {
        q
    }
}

/// Whether `a / b`, scaled by 2 to the power of `j - 200`, has 53 binary digits
/// before the point.
pub open spec fn fills_significand(a: nat, b: nat, j: nat) -> bool {
    double::two(252) * b <= a * double::two(j) < double::two(253) * b
}

/// The scale at which the quotient of two positive doubles is rounded.
pub open spec fn quotient_scale(a: nat, b: nat) -> nat {
    choose|j: nat| fills_significand(a, b, j)
}

/// `a / b` times one hundred in double arithmetic, scaled by 2 to the power of
/// `quotient_scale - 200`: both numbers, the quotient and the product are
/// rounded to 53 binary digits.
pub open spec fn percent_significand(a: nat, b: nat) -> nat {
    if a == 0 {
        0
    } else {
        double::rounded(
            100 * nearest_ratio(a * double::two(quotient_scale(a, b)), b * double::two(200)),
        )
    }
}

/// `part / whole * 100.0` with the fractional part cut off.
pub open spec fn whole_percent(part: nat, whole: nat) -> nat {
    let (a, b) = (double::rounded(part), double::rounded(whole));
    (percent_significand(a, b) * double::two(200)) / double::two(quotient_scale(a, b))
}

/// `part / whole * 100.0` rounded to the nearest integer, up where two are
/// nearest.
pub open spec fn rounded_percent(part: nat, whole: nat) -> nat {
    let (a, b) = (double::rounded(part), double::rounded(whole));
    let unit = double::two(quotient_scale(a, b));
    (2 * (percent_significand(a, b) * double::two(200)) + unit) / (2 * unit)
}

/// `part / whole * 100.0` rounded to the nearest integer, to the even one where
/// two are nearest.
pub open spec fn even_percent(part: nat, whole: nat) -> nat {
    let (a, b) = (double::rounded(part), double::rounded(whole));
    nearest_ratio(
        percent_significand(a, b) * double::two(200),
        double::two(quotient_scale(a, b)),
    )
}

proof fn lemma_scale_unique(a: nat, b: nat, j: nat)
    requires
        a > 0,
        b > 0,
        fills_significand(a, b, j),
    ensures
        quotient_scale(a, b) == j,
{
    let k = quotient_scale(a, b);
    assert(fills_significand(a, b, k));
    vstd::arithmetic::power2::lemma_pow2_unfold(253);
    assert(double::two(253) * b == 2 * (double::two(252) * b)) by (nonlinear_arith)
        requires
            double::two(253) == 2 * double::two(252),
    ;
    if j < k {
        lemma_scale_gap(a, b, j, k);
    } else if k < j {
        lemma_scale_gap(a, b, k, j);
    }
}

proof fn lemma_scale_gap(a: nat, b: nat, low: nat, high: nat)
    requires
        low < high,
    ensures
        2 * (a * double::two(low)) <= a * double::two(high),
{
    vstd::arithmetic::power2::lemma_pow2_unfold(low + 1);
    double::lemma_two_below(low + 1, high);
    assert(2 * (a * double::two(low)) <= a * double::two(high)) by (nonlinear_arith)
        requires
            2 * double::two(low) <= double::two(high),
    ;
}

proof fn lemma_ratio_scaled(n: nat, d: nat, c: nat)
    requires
        d > 0,
        c > 0,
    ensures
        nearest_ratio(n * c, d * c) == nearest_ratio(n, d),
{
    let (q, r) = (n / d, n % d);
    vstd::arithmetic::div_mod::lemma_fundamental_div_mod(n as int, d as int);
    assert(n * c == q * (d * c) + r * c) by (nonlinear_arith)
        requires
            n == d * q + r,
    ;
    assert(r * c < d * c) by (nonlinear_arith)
        requires
            r < d,
            c > 0,
    ;
    assert(0 <= r * c) by (nonlinear_arith);
    assert(d * c > 0) by (nonlinear_arith)
        requires
            d > 0,
            c > 0,
    ;
    vstd::arithmetic::div_mod::lemma_fundamental_div_mod_converse(
        (n * c) as int,
        (d * c) as int,
        q as int,
        (r * c) as int,
    );
    assert(2 * (r * c) > d * c <==> 2 * r > d) by (nonlinear_arith)
        requires
            c > 0,
    ;
    assert(2 * (r * c) == d * c <==> 2 * r == d) by (nonlinear_arith)
        requires
            c > 0,
    ;
}

/// What the three percentages are computed from: the significand of the
/// percentage, and by how many binary places it is scaled.
struct Percent {
    significand: u64,
    up: u32,
    down: u32,
}

impl Percent {
    /// The scale as it stands in the definitions.
    spec fn scale(self) -> int {
        200 + self.up - self.down
    }
}

proof fn lemma_rounded_size(n: nat)
    requires
        n <= u64::MAX,
    ensures
        n > 0 ==> double::rounded(n) > 0,
        double::rounded(n) <= 0x1_0000_0000_0000_0000,
{
    double::lemma_bit_length(n);
    vstd::arithmetic::power2::lemma2_to64();
    vstd::arithmetic::power2::lemma2_to64_rest();
    if double::bit_length(n) > 53 {
        let k = (double::bit_length(n) - 53) as nat;
        if double::bit_length(n) > 64 {
            double::lemma_two_below(64, (double::bit_length(n) - 1) as nat);
        }
        double::lemma_two_below(double::bit_length(n), 64);
        vstd::arithmetic::power2::lemma_pow2_adds(53, k);
        vstd::arithmetic::power2::lemma_pow2_adds(52, k);
        double::lemma_two_below(0, k);
        let (p, q, r) = (double::two(k) as int, (n / double::two(k)) as int, (n % double::two(k)) as int);
        vstd::arithmetic::div_mod::lemma_fundamental_div_mod(n as int, p);
        assert(q < 0x20_0000_0000_0000) by (nonlinear_arith)
            requires
                n == p * q + r,
                n < 0x20_0000_0000_0000 * p,
                0 <= r,
                p > 0,
        ;
        assert(q >= 1) by (nonlinear_arith)
            requires
                n == p * q + r,
                n >= 0x10_0000_0000_0000 * p,
                0 <= r < p,
                p > 0,
        ;
        let m = double::nearest_quotient(n, k) as int;
        assert(0 < m * p <= 0x20_0000_0000_0000 * p) by (nonlinear_arith)
            requires
                1 <= m <= 0x20_0000_0000_0000,
                p > 0,
        ;
    }
}

fn percent_of(part: u64, whole: u64) -> (r: Percent)
    requires
        part > 0,
        whole > 0,
    ensures
        r.up == 0 || r.down == 0,
        r.up <= 120,
        r.down <= 120,
        r.significand <= 0x1000_0000_0000_0000,
        r.significand == percent_significand(
            double::rounded(part as nat),
            double::rounded(whole as nat),
        ),
        r.scale() == quotient_scale(double::rounded(part as nat), double::rounded(whole as nat)),
        part <= whole ==> r.down == 0,
{
    proof {
        lemma_rounded_size(part as nat);
        lemma_rounded_size(whole as nat);
        vstd::arithmetic::power2::lemma2_to64();
        vstd::arithmetic::power2::lemma2_to64_rest();
    }
    let a: u128 = double::round(part as u128);
    let b: u128 = double::round(whole as u128);
    let mut n: u128 = a;
    let mut d: u128 = b;
    let mut up: u32 = 0;
    let mut down: u32 = 0;
    proof {
        assert(a * double::two(0) == a) by (nonlinear_arith)
            requires
                double::two(0) == 1,
        ;
        assert(b * double::two(0) == b) by (nonlinear_arith)
            requires
                double::two(0) == 1,
        ;
    }
    while n < 0x10_0000_0000_0000 * d
        invariant
            0 < a <= 0x1_0000_0000_0000_0000,
            0 < b <= 0x1_0000_0000_0000_0000,
            d == b,
            down == 0,
            up <= 118,
            n == a * double::two(up as nat),
            n < 0x20_0000_0000_0000 * d || up == 0,
            n <= 0x40_0000_0000_0000_0000_0000_0000_0000,
        decreases 120 - up,
    {
        proof {
            vstd::arithmetic::power2::lemma_pow2_unfold((up + 1) as nat);
            assert(2 * (a * double::two(up as nat)) == a * (2 * double::two(up as nat)))
                by (nonlinear_arith);
            if up >= 117 {
                double::lemma_two_below(117, up as nat);
                vstd::arithmetic::power2::lemma_pow2_adds(53, 64);
                vstd::arithmetic::power2::lemma2_to64();
                vstd::arithmetic::power2::lemma2_to64_rest();
                assert(a * double::two(up as nat) >= double::two(117)) by (nonlinear_arith)
                    requires
                        a >= 1,
                        double::two(up as nat) >= double::two(117),
                ;
                assert(false);
            }
        }
        n = n * 2;
        up = up + 1;
    }
    while n >= 0x20_0000_0000_0000 * d
        invariant
            0 < a <= 0x1_0000_0000_0000_0000,
            0 < b <= 0x1_0000_0000_0000_0000,
            up == 0 || down == 0,
            up <= 118,
            down <= 65,
            n == a * double::two(up as nat),
            d == b * double::two(down as nat),
            n >= 0x10_0000_0000_0000 * d,
            up > 0 ==> n < 0x20_0000_0000_0000 * d,
            up == 0 ==> n == a,
            0 < d <= 0x10_0000_0000_0000_0000,
            part <= whole ==> a <= 4 * b && down == 0,
        decreases 70 - down,
    {
        proof {
            if part <= whole {
                vstd::arithmetic::power2::lemma2_to64();
                assert(b * double::two(0) == b) by (nonlinear_arith)
                    requires
                        double::two(0) == 1,
                ;
            }
            vstd::arithmetic::power2::lemma_pow2_unfold((down + 1) as nat);
            assert(2 * (b * double::two(down as nat)) == b * (2 * double::two(down as nat)))
                by (nonlinear_arith);
            if down >= 64 {
                double::lemma_two_below(64, down as nat);
                vstd::arithmetic::power2::lemma2_to64();
                assert(b * double::two(down as nat) >= double::two(64)) by (nonlinear_arith)
                    requires
                        b >= 1,
                        double::two(down as nat) >= double::two(64),
                ;
                assert(false);
            }
        }
        d = d * 2;
        down = down + 1;
    }
    let q: u128 = n / d;
    let rest: u128 = n % d;
    proof {
        vstd::arithmetic::div_mod::lemma_fundamental_div_mod(n as int, d as int);
        assert(q < 0x20_0000_0000_0000) by (nonlinear_arith)
            requires
                n == d * q + rest,
                n < 0x20_0000_0000_0000 * d,
                0 <= rest,
                d > 0,
        ;
    }
    let m: u128 = if 2 * rest > d || (2 * rest == d && q % 2 == 1) {
        q + 1
    } else {
        q
    };
    let product: u128 = double::round(100 * m);
    proof {
        let j = (200 + up - down) as nat;
        let c = double::two((200 - down) as nat);
        double::lemma_two_below(0, (200 - down) as nat);
        vstd::arithmetic::power2::lemma_pow2_adds(up as nat, (200 - down) as nat);
        vstd::arithmetic::power2::lemma_pow2_adds(down as nat, (200 - down) as nat);
        vstd::arithmetic::power2::lemma_pow2_adds(52, 200);
        vstd::arithmetic::power2::lemma_pow2_adds(53, 200);
        let (pu, pd, t200) = (
            double::two(up as nat),
            double::two(down as nat),
            double::two(200),
        );
        assert(a * (pu * c) == (a * pu) * c) by (nonlinear_arith);
        assert(b * (pd * c) == (b * pd) * c) by (nonlinear_arith);
        assert(n * c == a * double::two(j));
        assert(d * c == b * t200);
        assert(0x10_0000_0000_0000 * (d * c) <= n * c < 0x20_0000_0000_0000 * (d * c))
            by (nonlinear_arith)
            requires
                0x10_0000_0000_0000 * d <= n < 0x20_0000_0000_0000 * d,
                c > 0,
        ;
        assert(double::two(252) * b == 0x10_0000_0000_0000 * (b * t200)) by (nonlinear_arith)
            requires
                double::two(252) == 0x10_0000_0000_0000 * t200,
        ;
        assert(double::two(253) * b == 0x20_0000_0000_0000 * (b * t200)) by (nonlinear_arith)
            requires
                double::two(253) == 0x20_0000_0000_0000 * t200,
        ;
        assert(fills_significand(a as nat, b as nat, j));
        lemma_scale_unique(a as nat, b as nat, j);
        lemma_ratio_scaled(n as nat, d as nat, c);
        lemma_rounded_small((100 * m) as nat);
    }
    Percent { significand: product as u64, up, down }
}

proof fn lemma_rounded_small(n: nat)
    requires
        n <= 100 * 0x20_0000_0000_0000,
    ensures
        double::rounded(n) <= 0x1000_0000_0000_0000,
{
    double::lemma_bit_length(n);
    vstd::arithmetic::power2::lemma2_to64();
    vstd::arithmetic::power2::lemma2_to64_rest();
    if double::bit_length(n) > 60 {
        double::lemma_two_below(60, (double::bit_length(n) - 1) as nat);
    }
    if double::bit_length(n) > 53 {
        let k = (double::bit_length(n) - 53) as nat;
        vstd::arithmetic::power2::lemma_pow2_adds(53, k);
        double::lemma_two_below(0, k);
        double::lemma_two_below(double::bit_length(n), 60);
        let (p, q, r) = (double::two(k) as int, (n / double::two(k)) as int, (n % double::two(k)) as int);
        vstd::arithmetic::div_mod::lemma_fundamental_div_mod(n as int, p);
        assert(q < 0x20_0000_0000_0000) by (nonlinear_arith)
            requires
                n == p * q + r,
                n < 0x20_0000_0000_0000 * p,
                0 <= r,
                p > 0,
        ;
        let m = double::nearest_quotient(n, k) as int;
        assert(m * p <= 0x20_0000_0000_0000 * p) by (nonlinear_arith)
            requires
                m <= 0x20_0000_0000_0000,
                p > 0,
        ;
    }
}

proof fn lemma_cancel(n: nat, d: nat, c: nat)
    requires
        d > 0,
        c > 0,
    ensures
        (n * c) / (d * c) == n / d,
{
    let (q, r) = (n / d, n % d);
    vstd::arithmetic::div_mod::lemma_fundamental_div_mod(n as int, d as int);
    assert(n * c == q * (d * c) + r * c) by (nonlinear_arith)
        requires
            n == d * q + r,
    ;
    assert(0 <= r * c < d * c) by (nonlinear_arith)
        requires
            0 <= r < d,
            c > 0,
    ;
    vstd::arithmetic::div_mod::lemma_fundamental_div_mod_converse(
        (n * c) as int,
        (d * c) as int,
        q as int,
        (r * c) as int,
    );
}

/// `part / whole * 100.0` with the fractional part cut off, moved into the range
/// of `u64`.
fn whole_percent_of(part: u64, whole: u64) -> (r: u64)
    requires
        whole > 0,
    ensures
        r == (if whole_percent(part as nat, whole as nat) > u64::MAX {
            u64::MAX as nat
        } else {
            whole_percent(part as nat, whole as nat)
        }),
{
    proof {
        lemma_zero_percent(whole as nat);
    }
    if part == 0 {
        return 0;
    }
    let p = percent_of(part, whole);
    proof {
        double::lemma_two_below(0, 200);
        double::lemma_two_below(0, p.up as nat);
        double::lemma_two_below(0, p.down as nat);
        vstd::arithmetic::power2::lemma2_to64();
        vstd::arithmetic::power2::lemma2_to64_rest();
    }
    if p.down == 0 {
        proof {
            vstd::arithmetic::power2::lemma_pow2_adds(p.up as nat, 200);
            lemma_cancel(p.significand as nat, double::two(p.up as nat), double::two(200));
        }
        if p.up >= 64 {
            proof {
                double::lemma_two_below(64, p.up as nat);
                vstd::arithmetic::div_mod::lemma_basic_div(
                    p.significand as int,
                    double::two(p.up as nat) as int,
                );
            }
            0
        } else {
            let unit: u128 = double::power_of_two(p.up);
            proof {
                vstd::arithmetic::div_mod::lemma_div_nonincreasing(
                    p.significand as int,
                    unit as int,
                );
            }
            ((p.significand as u128) / unit) as u64
        }
    } else {
        let ghost low = (200 - p.down) as nat;
        proof {
            double::lemma_scaled_up(p.significand as nat, low, 200);
        }
        if p.significand == 0 {
            assert(0 * double::two(p.down as nat) == 0) by (nonlinear_arith);
            return 0;
        }
        if p.down >= 64 {
            proof {
                double::lemma_two_below(64, p.down as nat);
                assert(p.significand * double::two(p.down as nat) > u64::MAX) by (nonlinear_arith)
                    requires
                        p.significand >= 1,
                        double::two(p.down as nat) > u64::MAX,
                ;
            }
            u64::MAX
        } else {
            let unit: u128 = double::power_of_two(p.down);
            proof {
                double::lemma_two_below(p.down as nat, 63);
                assert(p.significand * unit <= 0x1000_0000_0000_0000 * 0x8000_0000_0000_0000)
                    by (nonlinear_arith)
                    requires
                        p.significand <= 0x1000_0000_0000_0000,
                        unit <= 0x8000_0000_0000_0000,
                ;
            }
            let value: u128 = (p.significand as u128) * unit;
            if value > u64::MAX as u128 {
                u64::MAX
            } else {
                value as u64
            }
        }
    }
}

proof fn lemma_zero_percent(whole: nat)
    requires
        whole > 0,
    ensures
        double::rounded(0) == 0,
        whole_percent(0, whole) == 0,
        rounded_percent(0, whole) == 0,
        even_percent(0, whole) == 0,
{
    assert(double::bit_length(0) == 0);
    let unit = double::two(quotient_scale(0, double::rounded(whole)));
    double::lemma_two_below(0, quotient_scale(0, double::rounded(whole)));
    vstd::arithmetic::power2::lemma2_to64();
    assert(0 * double::two(200) == 0);
    vstd::arithmetic::div_mod::lemma_basic_div(0, unit as int);
    vstd::arithmetic::div_mod::lemma_small_mod(0, unit);
    vstd::arithmetic::div_mod::lemma_basic_div(unit as int, (2 * unit) as int);
}

/// The share of tickets that are filled, in percent, with the fractional part
/// cut off: `filled / total * 100.0`, moved into the range of `i64`.
pub open spec fn fill_rate(filled: int, total: int) -> int {
    if filled < 0 {
        let p = whole_percent((-filled) as nat, total as nat) as int;
        if p > -(i64::MIN as int) {
            i64::MIN as int
        } else {
            -p
        }
    } else {
        let p = whole_percent(filled as nat, total as nat) as int;
        if p > i64::MAX {
            i64::MAX as int
        } else {
            p
        }
    }
}

/// The share of tickets that are filled, in percent.
pub fn fill_rate_of(filled: i64, total: i64) -> (r: i64)
    requires
        total > 0,
    ensures
        r == fill_rate(filled as int, total as int),
{
    if filled < 0 {
        let size: u64 = (-(filled + 1)) as u64 + 1;
        let p: u64 = whole_percent_of(size, total as u64);
        if p >= 0x8000_0000_0000_0000 {
            i64::MIN
        } else {
            -(p as i64)
        }
    } else {
        let p: u64 = whole_percent_of(filled as u64, total as u64);
        if p > i64::MAX as u64 {
            i64::MAX
        } else {
            p as i64
        }
    }
}

/// `part / whole * 100.0` rounded to the nearest integer, up where two are
/// nearest.
pub fn rounded_percent_of(part: u64, whole: u64) -> (r: u64)
    requires
        part <= whole,
        whole > 0,
    ensures
        r == rounded_percent(part as nat, whole as nat),
{
    proof {
        lemma_zero_percent(whole as nat);
    }
    if part == 0 {
        return 0;
    }
    let p = percent_of(part, whole);
    let ghost (s, t) = (p.significand as nat, double::two(p.up as nat));
    proof {
        let c = double::two(200);
        double::lemma_two_below(0, 200);
        double::lemma_two_below(0, p.up as nat);
        vstd::arithmetic::power2::lemma2_to64();
        vstd::arithmetic::power2::lemma_pow2_adds(p.up as nat, 200);
        lemma_cancel(2 * s + t, 2 * t, c);
        assert((2 * s + t) * c == 2 * (s * c) + t * c) by (nonlinear_arith);
        assert((2 * t) * c == 2 * (t * c)) by (nonlinear_arith);
    }
    if p.up >= 64 {
        proof {
            double::lemma_two_below(64, p.up as nat);
            vstd::arithmetic::div_mod::lemma_basic_div((2 * s + t) as int, (2 * t) as int);
        }
        0
    } else {
        let unit: u128 = double::power_of_two(p.up);
        proof {
            double::lemma_two_below(p.up as nat, 64);
            let q = (2 * s + t) / (2 * t);
            vstd::arithmetic::div_mod::lemma_fundamental_div_mod((2 * s + t) as int, (2 * t) as int);
            assert(q <= s + 1) by (nonlinear_arith)
                requires
                    2 * t * q <= 2 * s + t,
                    t >= 1,
            ;
        }
        ((2 * (p.significand as u128) + unit) / (2 * unit)) as u64
    }
}

/// `part / whole * 100.0` rounded to the nearest integer, to the even one where
/// two are nearest.
pub fn even_percent_of(part: u64, whole: u64) -> (r: u64)
    requires
        part <= whole,
        whole > 0,
    ensures
        r == even_percent(part as nat, whole as nat),
{
    proof {
        lemma_zero_percent(whole as nat);
    }
    if part == 0 {
        return 0;
    }
    let p = percent_of(part, whole);
    let ghost (s, t) = (p.significand as nat, double::two(p.up as nat));
    proof {
        double::lemma_two_below(0, 200);
        double::lemma_two_below(0, p.up as nat);
        vstd::arithmetic::power2::lemma2_to64();
        vstd::arithmetic::power2::lemma_pow2_adds(p.up as nat, 200);
        lemma_ratio_scaled(s, t, double::two(200));
    }
    if p.up >= 64 {
        proof {
            double::lemma_two_below(64, p.up as nat);
            vstd::arithmetic::div_mod::lemma_basic_div(s as int, t as int);
            vstd::arithmetic::div_mod::lemma_small_mod(s, t);
        }
        0
    } else {
        let unit: u128 = double::power_of_two(p.up);
        proof {
            double::lemma_two_below(p.up as nat, 64);
            vstd::arithmetic::div_mod::lemma_div_nonincreasing(s as int, t as int);
        }
        let q: u64 = ((p.significand as u128) / unit) as u64;
        let rest: u128 = (p.significand as u128) % unit;
        if 2 * rest > unit || (2 * rest == unit && q % 2 == 1) {
            q + 1
        } else {
            q
        }
    }
}

// ── Prices ──────────────────────────────────────────────────────────────

/// Whether the double is a price from 0.01 to 0.99.
pub open spec fn is_price(d: Double) -> bool {
    d.ge(Double { bits: double::PRICE_MIN }) && (Double { bits: double::PRICE_MAX }).ge(d)
}

/// Whether `c / 10^n` lies so close to the double that reading it gives the
/// double back: within half the distance of neighbouring doubles, and on the
/// boundary itself where the significand is even.
pub open spec fn reads_back(d: Double, c: nat, n: nat) -> bool {
    let exact = d.significand() * ten(n);
    let given = c * double::two((1074 - d.scale()) as nat);
    let distance = if given >= exact {
        2 * (given - exact)
    } else {
        2 * (exact - given)
    };
    distance < ten(n) || (distance == ten(n) && d.significand() % 2 == 0)
}

/// The size of a double times `factor`, rounded to the nearest integer, and up
/// where two are nearest.
pub open spec fn nearest_or_up(d: Double, factor: nat) -> nat {
    let exact = d.significand() * factor;
    let unit = double::two((1074 - d.scale()) as nat);
    exact / unit + (if 2 * (exact % unit) >= unit {
        1nat
    } else {
        0
    })
}

/// The fewest decimals, from `n` on, with which the double reads back.
pub open spec fn places_from(d: Double, n: nat) -> nat
    decreases 18 - n,
{
    if n >= 18 || reads_back(d, nearest_or_up(d, ten(n)), n) {
        n
    } else {
        places_from(d, n + 1)
    }
}

/// The last `n` decimal digits of a number.
pub open spec fn padded(c: nat, n: nat) -> Seq<char>
    decreases n,
{
    if n == 0 {
        Seq::empty()
    } else {
        padded(c / 10, (n - 1) as nat).push(text::digit_char(c % 10))
    }
}

/// The shortest decimal notation of a price that reads back as the price, and
/// the nearest to it among those; the larger one where two are nearest.
pub open spec fn price_notation(d: Double) -> Seq<char> {
    let n = places_from(d, 1);
    seq!['0', '.'] + padded(nearest_or_up(d, ten(n)), n)
}

proof fn lemma_price_scale(d: Double)
    requires
        is_price(d),
    ensures
        1015 <= d.scale() <= 1021,
        !d.negative(),
{
    let low = Double { bits: double::PRICE_MIN };
    let high = Double { bits: double::PRICE_MAX };
    double::lemma_order(low, low);
    double::lemma_order(d, low);
    double::lemma_order(high, d);
    double::lemma_fields(d);
    assert(low.size() > 0);
}

proof fn lemma_ten()
    ensures
        ten(18) == 1_000_000_000_000_000_000,
{
    reveal_with_fuel(ten, 19);
}

proof fn lemma_ten_below(a: nat, b: nat)
    requires
        a <= b,
    ensures
        0 < ten(a) <= ten(b),
    decreases b,
{
    if a < b {
        lemma_ten_below(a, (b - 1) as nat);
    } else if b > 0 {
        lemma_ten_below((b - 1) as nat, (b - 1) as nat);
    }
}

/// The distance of the nearest multiple to the exact one.
proof fn lemma_nearest_distance(d: Double, factor: nat)
    ensures
        ({
            let exact = d.significand() * factor;
            let unit = double::two((1074 - d.scale()) as nat);
            &&& 2 * (nearest_or_up(d, factor) * unit) <= 2 * exact + unit
            &&& 2 * exact <= 2 * (nearest_or_up(d, factor) * unit) + unit
        }),
{
    let exact = d.significand() * factor;
    let k = (1074 - d.scale()) as nat;
    double::lemma_two_below(0, k);
    vstd::arithmetic::power2::lemma2_to64();
    let p = double::two(k) as int;
    let q = (exact / double::two(k)) as int;
    vstd::arithmetic::div_mod::lemma_fundamental_div_mod(exact as int, p);
    assert((q + 1) * p == p * q + p) by (nonlinear_arith);
    assert(q * p == p * q) by (nonlinear_arith);
}

/// The notation of a price reads back as the price.
pub proof fn price_notation_reads_back(d: Double)
    requires
        is_price(d),
    ensures
        ({
            let n = places_from(d, 1);
            1 <= n <= 18 && reads_back(d, nearest_or_up(d, ten(n)), n)
        }),
{
    lemma_price_scale(d);
    let k = (1074 - d.scale()) as nat;
    lemma_nearest_distance(d, ten(18));
    lemma_ten();
    double::lemma_two_below(k, 59);
    vstd::arithmetic::power2::lemma2_to64_rest();
    assert(reads_back(d, nearest_or_up(d, ten(18)), 18));
    lemma_places(d, 1);
}

proof fn lemma_places(d: Double, n: nat)
    requires
        n <= 18,
        reads_back(d, nearest_or_up(d, ten(18)), 18),
    ensures
        n <= places_from(d, n) <= 18,
        reads_back(d, nearest_or_up(d, ten(places_from(d, n))), places_from(d, n)),
    decreases 18 - n,
{
    if n < 18 && !reads_back(d, nearest_or_up(d, ten(n)), n) {
        lemma_places(d, n + 1);
    }
}

fn push_padded(out: &mut String, c: u64, n: u32)
    ensures
        final(out)@ == old(out)@ + padded(c as nat, n as nat),
    decreases n,
{
    if n > 0 {
        push_padded(out, c / 10, n - 1);
        let d: u8 = (c % 10) as u8;
        out.push((48 + d) as char);
    }
    assert(out@ =~= old(out)@ + padded(c as nat, n as nat));
}

/// The shortest decimal notation of a price, as the format `{}` writes it.
pub fn price_notation_of(d: Double) -> (r: String)
    requires
        is_price(d),
    ensures
        r@ == price_notation(d),
{
    proof {
        lemma_price_scale(d);
        lemma_ten();
    }
    let sig: u128 = double::significand_of(d) as u128;
    let k: u32 = 1074 - double::scale_of(d);
    let p: u128 = double::power_of_two(k);
    proof {
        double::lemma_two_below(k as nat, 59);
        double::lemma_two_below(53, k as nat);
        vstd::arithmetic::power2::lemma2_to64_rest();
    }
    let mut n: u32 = 1;
    let mut factor: u128 = 10;
    assert(ten(1) == 10) by {
        reveal_with_fuel(ten, 2);
    }
    loop
        invariant
            1 <= n <= 18,
            factor == ten(n as nat),
            ten(18) == 1_000_000_000_000_000_000,
            k == 1074 - d.scale(),
            1015 <= d.scale() <= 1021,
            p == double::two(k as nat),
            0x20_0000_0000_0000 <= p <= 0x800_0000_0000_0000,
            sig == d.significand(),
            sig < 0x20_0000_0000_0000,
            places_from(d, 1) == places_from(d, n as nat),
        decreases 18 - n,
    {
        proof {
            lemma_ten_below(n as nat, 18);
            assert(sig * factor <= 0x20_0000_0000_0000 * 1_000_000_000_000_000_000)
                by (nonlinear_arith)
                requires
                    sig < 0x20_0000_0000_0000,
                    factor <= 1_000_000_000_000_000_000,
            ;
        }
        let exact: u128 = sig * factor;
        let q: u128 = exact / p;
        let rest: u128 = exact % p;
        proof {
            vstd::arithmetic::div_mod::lemma_fundamental_div_mod(exact as int, p as int);
            lemma_nearest_distance(d, ten(n as nat));
            assert(q <= exact) by (nonlinear_arith)
                requires
                    exact == p * q + rest,
                    0 <= rest,
                    p >= 1,
            ;
        }
        let c: u128 = if 2 * rest >= p {
            q + 1
        } else {
            q
        };
        proof {
            assert(c == nearest_or_up(d, ten(n as nat)));
            assert(c * p <= exact + p);
        }
        let given: u128 = c * p;
        let distance: u128 = if given >= exact {
            2 * (given - exact)
        } else {
            2 * (exact - given)
        };
        if n >= 18 || distance < factor || (distance == factor && sig % 2 == 0) {
            let mut out = String::new();
            out.push('0');
            out.push('.');
            proof {
                lemma_price_digits(sig as int, factor as int, p as int, c as int);
            }
            push_padded(&mut out, c as u64, n);
            assert(out@ =~= price_notation(d));
            return out;
        }
        n = n + 1;
        factor = factor * 10;
    }
}

proof fn lemma_price_digits(sig: int, factor: int, p: int, c: int)
    requires
        0 <= sig < 0x20_0000_0000_0000,
        0 < factor <= 1_000_000_000_000_000_000,
        0x20_0000_0000_0000 <= p,
        c * p <= sig * factor + p,
    ensures
        c <= u64::MAX,
{
    assert(c <= 1_000_000_000_000_000_001) by (nonlinear_arith)
        requires
            0 <= sig < 0x20_0000_0000_0000,
            0 < factor <= 1_000_000_000_000_000_000,
            0x20_0000_0000_0000 <= p,
            c * p <= sig * factor + p,
    ;
}

/// A price is written as a zero, a point and digits.
pub proof fn prices_are_digits(d: Double)
    ensures
        price_notation(d).len() >= 3,
        price_notation(d)[0] == '0',
        price_notation(d)[1] == '.',
        forall|i: int|
            2 <= i < price_notation(d).len() ==> text::is_digit(#[trigger] price_notation(d)[i]),
{
    let n = places_from(d, 1);
    lemma_places_at_least(d, 1);
    let digits = padded(nearest_or_up(d, ten(n)), n);
    lemma_padded_digits(nearest_or_up(d, ten(n)), n);
    assert forall|i: int| 2 <= i < price_notation(d).len() implies text::is_digit(
        #[trigger] price_notation(d)[i],
    ) by {
        assert(price_notation(d)[i] == digits[i - 2]);
    }
}

proof fn lemma_places_at_least(d: Double, n: nat)
    ensures
        places_from(d, n) >= n,
    decreases 18 - n,
{
    if n < 18 && !reads_back(d, nearest_or_up(d, ten(n)), n) {
        lemma_places_at_least(d, n + 1);
    }
}

proof fn lemma_padded_digits(c: nat, n: nat)
    ensures
        padded(c, n).len() == n,
        text::all_digits(padded(c, n)),
    decreases n,
{
    if n > 0 {
        let rest = padded(c / 10, (n - 1) as nat);
        lemma_padded_digits(c / 10, (n - 1) as nat);
        assert forall|i: int| 0 <= i < padded(c, n).len() implies text::is_digit(
            #[trigger] padded(c, n)[i],
        ) by {
            if i < n - 1 {
                assert(padded(c, n)[i] == rest[i]);
            }
        }
    }
}

/// Rounding a finite double times a factor gives the nearest whole number, and
/// the even one where two are nearest.
pub proof fn nearest_multiple_is_nearest(d: Double, factor: nat)
    requires
        d.is_finite(),
    ensures
        ({
            let off = factor * d.size() - nearest_multiple(d, factor) * double::two(1074);
            &&& -double::two(1074) <= 2 * off <= double::two(1074)
            &&& 2 * off == double::two(1074) || 2 * off == -double::two(1074) ==> nearest_multiple(
                d,
                factor,
            ) % 2 == 0
        }),
{
    let (s, f, n) = (d.significand() as int, factor as int, nearest_multiple(d, factor) as int);
    let p = double::two(d.scale()) as int;
    vstd::arithmetic::power2::lemma_pow2_pos(1074);
    vstd::arithmetic::power2::lemma_pow2_pos(d.scale());
    if d.scale() >= 1074 {
        let k = (d.scale() - 1074) as nat;
        let (a, b) = (double::two(k) as int, double::two(1074) as int);
        vstd::arithmetic::power2::lemma_pow2_adds(k, 1074);
        assert(f * (s * (a * b)) == s * a * f * b) by (nonlinear_arith);
    } else {
        let k = (1074 - d.scale()) as nat;
        let q = double::two(k) as int;
        vstd::arithmetic::power2::lemma_pow2_adds(k, d.scale());
        vstd::arithmetic::power2::lemma_pow2_pos(k);
        double::nearest_quotient_is_nearest(d.significand() * factor, k);
        let off = s * f - n * q;
        assert(f * (s * p) - n * (q * p) == off * p) by (nonlinear_arith)
            requires
                off == s * f - n * q,
        ;
        assert(-(q * p) <= 2 * (off * p) <= q * p) by (nonlinear_arith)
            requires
                -q <= 2 * off <= q,
                p > 0,
        ;
        if 2 * (off * p) == q * p {
            assert(2 * off == q) by (nonlinear_arith)
                requires
                    2 * (off * p) == q * p,
                    p > 0,
            ;
        }
        if 2 * (off * p) == -(q * p) {
            assert(2 * off == -q) by (nonlinear_arith)
                requires
                    2 * (off * p) == -(q * p),
                    p > 0,
            ;
        }
    }
}

/// A finite double is written without decimals as the nearest whole number,
/// and with two decimals as the nearest number of hundredths, with a point
/// before the last two of at least three digits; the sign stands in front. A
/// double that is not finite is written by its name.
pub proof fn fixed_notation_is_nearest(d: Double)
    ensures
        ({
            let sign = if d.negative() {
                seq!['-']
            } else {
                Seq::empty()
            };
            let (ones, hundredths) = (nearest_multiple(d, 1), nearest_multiple(d, 100));
            let digits = fixed2(d).skip(sign.len() as int);
            let point = digits.len() - 3;
            &&& d.is_finite() ==> {
                &&& fixed0(d) == sign + text::decimal(ones)
                &&& fixed2(d).take(sign.len() as int) == sign
                &&& point >= 1
                &&& digits[point] == '.'
                &&& text::all_digits(digits.take(point))
                &&& text::is_digit(digits[point + 1])
                &&& text::is_digit(digits[point + 2])
                &&& 100 * text::digits_value(digits.take(point)) + 10 * (digits[point + 1] as int
                    - 48) + (digits[point + 2] as int - 48) == hundredths
            }
            &&& d.is_nan() ==> fixed0(d) == seq!['N', 'a', 'N'] && fixed2(d) == seq!['N', 'a', 'N']
            &&& !d.is_finite() && !d.is_nan() ==> fixed0(d) == sign + seq!['i', 'n', 'f']
                && fixed2(d) == sign + seq!['i', 'n', 'f']
        }),
{
    double::lemma_fields(d);
    let sign = if d.negative() {
        seq!['-']
    } else {
        Seq::empty()
    };
    if d.is_finite() {
        let n = nearest_multiple(d, 100);
        let front = text::decimal(n / 100);
        text::decimals_denote_their_number(n / 100);
        let digits = front + seq![
            '.',
            text::digit_char(n / 10 % 10),
            text::digit_char(n % 10),
        ];
        assert(fixed2(d) =~= sign + digits);
        assert(fixed2(d).skip(sign.len() as int) =~= digits);
        assert(fixed2(d).take(sign.len() as int) =~= sign);
        assert(digits.take(digits.len() - 3) =~= front);
        assert(fixed0(d) =~= sign + text::decimal(nearest_multiple(d, 1)));
    } else if !d.is_nan() {
        assert(seq!['-', 'i', 'n', 'f'] =~= seq!['-'] + seq!['i', 'n', 'f']);
        assert(Seq::<char>::empty() + seq!['i', 'n', 'f'] =~= seq!['i', 'n', 'f']);
    }
}

/// The decimals of a price are the fewest with which it reads back: with any
/// fewer, the nearest number does not.
pub proof fn prices_are_short(d: Double, fewer: nat)
    requires
        1 <= fewer,
        fewer < price_notation(d).len() - 2,
    ensures
        !reads_back(d, nearest_or_up(d, ten(fewer)), fewer),
{
    let n = places_from(d, 1);
    lemma_padded_digits(nearest_or_up(d, ten(n)), n);
    lemma_fewest_places(d, 1, fewer);
}

proof fn lemma_fewest_places(d: Double, from: nat, fewer: nat)
    requires
        from <= fewer < places_from(d, from),
    ensures
        !reads_back(d, nearest_or_up(d, ten(fewer)), fewer),
    decreases 18 - from,
{
    if from < fewer {
        lemma_fewest_places(d, from + 1, fewer);
    }
}

/// The digits of a price denote a number that reads back as the price: with
/// `n` decimals, what stands behind the point is a number of `n` digits that,
/// divided by 10 to the power of `n`, lies closer to the price than half the
/// way to its neighbours.
pub proof fn price_digits_denote_the_price(d: Double)
    requires
        is_price(d),
    ensures
        ({
            let digits = price_notation(d).skip(2);
            reads_back(d, text::digits_value(digits), digits.len())
        }),
{
    let n = places_from(d, 1);
    price_notation_reads_back(d);
    let c = nearest_or_up(d, ten(n));
    lemma_padded_digits(c, n);
    assert(price_notation(d).skip(2) =~= padded(c, n));
    lemma_price_below_one(d, n);
    lemma_padded_value(c, n);
}

proof fn lemma_padded_value(c: nat, n: nat)
    requires
        c < ten(n),
    ensures
        text::digits_value(padded(c, n)) == c,
    decreases n,
{
    if n == 0 {
        assert(padded(c, n) =~= Seq::<char>::empty());
    } else {
        let rest = padded(c / 10, (n - 1) as nat);
        lemma_padded_value(c / 10, (n - 1) as nat);
        assert(padded(c, n).drop_last() =~= rest);
    }
}

proof fn lemma_price_below_one(d: Double, n: nat)
    requires
        is_price(d),
        reads_back(d, nearest_or_up(d, ten(n)), n),
    ensures
        nearest_or_up(d, ten(n)) < ten(n),
{
    lemma_price_scale(d);
    let high = Double { bits: double::PRICE_MAX };
    double::lemma_order(high, d);
    double::lemma_fields(d);
    let k = (1074 - d.scale()) as nat;
    let c = nearest_or_up(d, ten(n)) as int;
    let (s, f, unit) = (d.significand() as int, ten(n) as int, double::two(k) as int);
    vstd::arithmetic::power2::lemma2_to64_rest();
    double::lemma_two_below(53, k);
    assert(s < unit);
    if c >= f {
        assert(f >= 0 && c * unit - s * f >= f) by (nonlinear_arith)
            requires
                c >= f,
                f >= 0,
                s < unit,
                unit > 0,
        ;
        lemma_ten_below(0, n);
        assert(ten(0) == 1);
    }
}

// ── Percentages ─────────────────────────────────────────────────────────

proof fn lemma_scale_exists(a: nat, b: nat, j: nat)
    requires
        a > 0,
        a * double::two(j) < double::two(252) * b,
    ensures
        exists|k: nat| fills_significand(a, b, k),
    decreases double::two(252) * b - a * double::two(j),
{
    let next = double::two(j + 1);
    vstd::arithmetic::power2::lemma_pow2_unfold(j + 1);
    vstd::arithmetic::power2::lemma_pow2_unfold(253);
    vstd::arithmetic::power2::lemma_pow2_pos(j);
    let (p, q) = (double::two(j) as int, double::two(252) as int);
    assert(a * (2 * p) == 2 * (a * p)) by (nonlinear_arith);
    assert((2 * q) * b == 2 * (q * b)) by (nonlinear_arith);
    assert(a * p > 0) by (nonlinear_arith)
        requires
            a > 0,
            p > 0,
    ;
    if a * next < double::two(252) * b {
        lemma_scale_exists(a, b, j + 1);
    } else {
        assert(fills_significand(a, b, j + 1));
    }
}

proof fn lemma_nearest_ratio(n: nat, d: nat)
    requires
        d > 0,
    ensures
        -(d as int) <= 2 * (n - nearest_ratio(n, d) * d) <= d,
{
    let (q, r) = (n as int / d as int, n as int % d as int);
    vstd::arithmetic::div_mod::lemma_fundamental_div_mod(n as int, d as int);
    vstd::arithmetic::div_mod::lemma_mod_bound(n as int, d as int);
    assert(d * q == q * d) by (nonlinear_arith);
    assert((q + 1) * d == q * d + d) by (nonlinear_arith);
}

proof fn lemma_percent_is_close(a: nat, b: nat)
    requires
        0 < a < double::two(53),
        0 < b < double::two(53),
    ensures
        ({
            let n = double::two(53);
            let exact = 100 * (a * double::two(quotient_scale(a, b)));
            let given = b * (percent_significand(a, b) * double::two(200));
            (n - 2) * exact <= n * given <= (n + 3) * exact
        }),
{
    let n = double::two(53) as int;
    vstd::arithmetic::power2::lemma2_to64();
    vstd::arithmetic::power2::lemma2_to64_rest();
    let j = quotient_scale(a, b);
    assert(fills_significand(a, b, j)) by {
        double::lemma_two_below(53, 252);
        assert(a * 1 == a);
        let q = double::two(252) as int;
        assert(a < q * b) by (nonlinear_arith)
            requires
                a < q,
                b >= 1,
        ;
        lemma_scale_exists(a, b, 0);
    }
    let (jj, t) = (double::two(j) as int, double::two(200) as int);
    vstd::arithmetic::power2::lemma_pow2_adds(52, 200);
    vstd::arithmetic::power2::lemma_pow2_pos(200);
    let x = a * jj;
    let unit = b * t;
    assert(unit > 0) by (nonlinear_arith)
        requires
            unit == b * t,
            b > 0,
            t > 0,
    ;
    let h = double::two(52) as int;
    assert((h * t) * b == h * unit) by (nonlinear_arith)
        requires
            unit == b * t,
    ;
    assert(h * unit <= x);
    let m = nearest_ratio(a * double::two(j), b * double::two(200)) as int;
    lemma_nearest_ratio(a * double::two(j), b * double::two(200));
    let off = x - m * unit;
    assert(-unit <= 2 * off <= unit);
    assert(n == 2 * h);
    assert(n * (m * unit) <= (n + 1) * x && (n - 1) * x <= n * (m * unit)) by (nonlinear_arith)
        requires
            off == x - m * unit,
            -unit <= 2 * off <= unit,
            n == 2 * h,
            h > 0,
            h * unit <= x,
    ;
    let s = double::rounded((100 * m) as nat) as int;
    double::rounding_is_close((100 * m) as nat);
    assert(n * s <= (n + 1) * (100 * m) && (n - 1) * (100 * m) <= n * s) by (nonlinear_arith)
        requires
            -(100 * m) <= n * (s - 100 * m) <= 100 * m,
    ;
    assert(100 * (m * unit) == (100 * m) * unit) by (nonlinear_arith);
    lemma_two_errors(n, s, 100 * m, unit, 100 * (m * unit), 100 * x);
    assert(b * (s * t) == s * unit) by (nonlinear_arith)
        requires
            unit == b * t,
    ;
}

proof fn lemma_two_errors(n: int, s: int, m: int, unit: int, w: int, x: int)
    requires
        n >= 4,
        unit > 0,
        m >= 0,
        x >= 0,
        (n - 1) * m <= n * s <= (n + 1) * m,
        w == m * unit,
        (n - 1) * x <= n * w <= (n + 1) * x,
    ensures
        (n - 2) * x <= n * (s * unit) <= (n + 3) * x,
{
    assert(n * (s * unit) <= (n + 1) * w && (n - 1) * w <= n * (s * unit)) by (nonlinear_arith)
        requires
            (n - 1) * m <= n * s <= (n + 1) * m,
            w == m * unit,
            unit > 0,
    ;
    let v = n * (s * unit);
    assert(n * v <= (n + 1) * ((n + 1) * x) && (n - 1) * ((n - 1) * x) <= n * v)
        by (nonlinear_arith)
        requires
            v <= (n + 1) * w,
            (n - 1) * w <= v,
            (n - 1) * x <= n * w <= (n + 1) * x,
            n >= 4,
    ;
    assert((n + 1) * ((n + 1) * x) <= n * ((n + 3) * x)) by (nonlinear_arith)
        requires
            n >= 4,
            x >= 0,
    ;
    assert(n * ((n - 2) * x) <= (n - 1) * ((n - 1) * x)) by (nonlinear_arith)
        requires
            n >= 4,
            x >= 0,
    ;
    assert(v <= (n + 3) * x) by (nonlinear_arith)
        requires
            n * v <= n * ((n + 3) * x),
            n >= 4,
    ;
    assert((n - 2) * x <= v) by (nonlinear_arith)
        requires
            n * ((n - 2) * x) <= n * v,
            n >= 4,
    ;
}

/// Three percentages of a part of a whole: the one that is cut off is the
/// whole part of one hundred times the ratio, and the two that are rounded are
/// no farther from it than one half, each up to three parts in 2 to the power
/// of 53 of it, which the arithmetic of doubles may lose.
pub proof fn percentages_are_hundredths_of_the_whole(part: nat, whole: nat)
    requires
        part < double::two(53),
        0 < whole < double::two(53),
    ensures
        ({
            let n = double::two(53);
            let exact = 100 * part;
            let cut = whole_percent(part, whole);
            let up = rounded_percent(part, whole);
            let even = even_percent(part, whole);
            &&& n * (whole * cut) <= (n + 3) * exact
            &&& (n - 2) * exact < n * (whole * (cut + 1))
            &&& n * (whole * (2 * up - 1)) <= 2 * ((n + 3) * exact)
            &&& 2 * ((n - 2) * exact) < n * (whole * (2 * up + 1))
            &&& n * (whole * (2 * even - 1)) <= 2 * ((n + 3) * exact)
            &&& 2 * ((n - 2) * exact) <= n * (whole * (2 * even + 1))
        }),
{
    let n = double::two(53) as int;
    vstd::arithmetic::power2::lemma2_to64_rest();
    double::rounding_is_close(part);
    double::rounding_is_close(whole);
    let b = whole as int;
    if part == 0 {
        lemma_zero_percent(whole);
        assert(n * (b * 1) > 0) by (nonlinear_arith)
            requires
                n > 0,
                b > 0,
        ;
        assert(n * (b * (2 * 0 - 1)) <= 0) by (nonlinear_arith)
            requires
                n > 0,
                b > 0,
        ;
        assert(b * 0 == 0 && n * 0 == 0 && (n + 3) * 0 == 0 && (n - 2) * 0 == 0) by (nonlinear_arith);
    } else {
        lemma_percent_is_close(part, whole);
        let j = double::two(quotient_scale(part, whole)) as int;
        let t = (percent_significand(part, whole) * double::two(200)) as int;
        vstd::arithmetic::power2::lemma_pow2_pos(quotient_scale(part, whole));
        let exact = 100 * part as int;
        assert(100 * (part * j) == exact * j) by (nonlinear_arith)
            requires
                exact == 100 * part,
        ;
        let cut = whole_percent(part, whole) as int;
        vstd::arithmetic::div_mod::lemma_fundamental_div_mod(t, j);
        vstd::arithmetic::div_mod::lemma_mod_bound(t, j);
        assert((2 * cut) * j == 2 * (j * cut) && (2 * cut + 2) * j == 2 * (j * cut) + 2 * j)
            by (nonlinear_arith);
        lemma_percent_bounds(n, b, t, j, exact, 2 * cut, 2 * cut + 2);
        lemma_halves(n, b, exact, cut);
        let up = rounded_percent(part, whole) as int;
        vstd::arithmetic::div_mod::lemma_fundamental_div_mod(2 * t + j, 2 * j);
        vstd::arithmetic::div_mod::lemma_mod_bound(2 * t + j, 2 * j);
        assert((2 * j) * up == 2 * (j * up)) by (nonlinear_arith);
        assert((2 * up - 1) * j == 2 * (j * up) - j && (2 * up + 1) * j == 2 * (j * up) + j)
            by (nonlinear_arith);
        lemma_percent_bounds(n, b, t, j, exact, 2 * up - 1, 2 * up + 1);
        let even = even_percent(part, whole) as int;
        lemma_nearest_ratio(t as nat, j as nat);
        assert((2 * even - 1) * j == 2 * (even * j) - j && (2 * even + 1) * j == 2 * (even * j) + j)
            by (nonlinear_arith);
        lemma_percent_bounds(n, b, t, j, exact, 2 * even - 1, 2 * even + 1);
    }
}

proof fn lemma_halves(n: int, b: int, exact: int, cut: int)
    requires
        n * (b * (2 * cut)) <= 2 * ((n + 3) * exact),
        2 * ((n - 2) * exact) < n * (b * (2 * cut + 2)),
    ensures
        n * (b * cut) <= (n + 3) * exact,
        (n - 2) * exact < n * (b * (cut + 1)),
{
    assert(n * (b * (2 * cut)) == 2 * (n * (b * cut))) by (nonlinear_arith);
    assert(n * (b * (2 * cut + 2)) == 2 * (n * (b * (cut + 1)))) by (nonlinear_arith);
}

proof fn lemma_percent_bounds(n: int, b: int, t: int, j: int, exact: int, low: int, high: int)
    requires
        n >= 4,
        b > 0,
        j > 0,
        exact >= 0,
        (n - 2) * (exact * j) <= n * (b * t) <= (n + 3) * (exact * j),
        low * j <= 2 * t <= high * j,
    ensures
        n * (b * low) <= 2 * ((n + 3) * exact),
        2 * ((n - 2) * exact) <= n * (b * high),
        2 * t < high * j ==> 2 * ((n - 2) * exact) < n * (b * high),
{
    assert(n * (b * (low * j)) <= n * (b * (2 * t)) && n * (b * (2 * t)) <= n * (b * (high * j)))
        by (nonlinear_arith)
        requires
            low * j <= 2 * t <= high * j,
            n >= 4,
            b > 0,
    ;
    assert(n * (b * (2 * t)) == 2 * (n * (b * t))) by (nonlinear_arith);
    let (p, q) = (n * (b * low), 2 * ((n + 3) * exact));
    assert(p * j == n * (b * (low * j))) by (nonlinear_arith)
        requires
            p == n * (b * low),
    ;
    assert(q * j == 2 * ((n + 3) * (exact * j))) by (nonlinear_arith)
        requires
            q == 2 * ((n + 3) * exact),
    ;
    assert(p <= q) by (nonlinear_arith)
        requires
            p * j <= q * j,
            j > 0,
    ;
    let (r, s) = (2 * ((n - 2) * exact), n * (b * high));
    assert(r * j == 2 * ((n - 2) * (exact * j))) by (nonlinear_arith)
        requires
            r == 2 * ((n - 2) * exact),
    ;
    assert(s * j == n * (b * (high * j))) by (nonlinear_arith)
        requires
            s == n * (b * high),
    ;
    assert(r <= s) by (nonlinear_arith)
        requires
            r * j <= s * j,
            j > 0,
    ;
    if 2 * t < high * j {
        assert(n * (b * (2 * t)) < n * (b * (high * j))) by (nonlinear_arith)
            requires
                2 * t < high * j,
                n >= 4,
                b > 0,
        ;
        assert(r < s) by (nonlinear_arith)
            requires
                r * j < s * j,
                j > 0,
        ;
    }
}

/// A fill rate is the percentage of the tickets that are filled, cut off, with
/// the sign of their number.
pub proof fn fill_rates_are_percentages(filled: int, total: int)
    requires
        0 < total,
    ensures
        filled >= 0 && whole_percent(filled as nat, total as nat) <= i64::MAX ==> fill_rate(
            filled,
            total,
        ) == whole_percent(filled as nat, total as nat),
        0 <= filled && whole_percent(filled as nat, total as nat) <= i64::MAX ==> fill_rate(
            -filled,
            total,
        ) == -fill_rate(filled, total),
{
    if filled == 0 {
        lemma_zero_percent(total as nat);
    }
}

/// The digits of a price are those of the nearest number with as many
/// decimals, and of the larger one where two are nearest.
pub proof fn price_ties_go_up(d: Double, factor: nat)
    ensures
        ({
            let exact = d.significand() * factor;
            let unit = double::two((1074 - d.scale()) as nat);
            let off = exact - nearest_or_up(d, factor) * unit;
            -unit <= 2 * off < unit
        }),
{
    let exact = (d.significand() * factor) as int;
    let k = (1074 - d.scale()) as nat;
    let unit = double::two(k) as int;
    vstd::arithmetic::power2::lemma_pow2_pos(k);
    vstd::arithmetic::div_mod::lemma_fundamental_div_mod(exact, unit);
    vstd::arithmetic::div_mod::lemma_mod_bound(exact, unit);
    let q = exact / unit;
    assert(unit * q == q * unit) by (nonlinear_arith);
    assert((q + 1) * unit == q * unit + unit) by (nonlinear_arith);
}

} // verus!

//! Conversion of a `Crawl-delay` value, a decimal number of seconds, into
//! whole milliseconds.
//!
//! The accepted syntax is that of a Rust floating-point literal as read by
//! `str::parse::<f64>`: an optional sign, digits with at most one decimal
//! point (at least one digit in all), and an optional exponent `e`/`E` with
//! an optional sign and at least one digit. Words such as `inf` or `nan`
//! are not finite and are refused, as are negative values other than zero
//! and values that an `f64` cannot hold: those of at least 2^1024 − 2^970,
//! which `str::parse::<f64>` rounds to infinity.
//!
//! The milliseconds are `floor(seconds * 1000)`, computed exactly on the
//! decimal value and capped at `u64::MAX`. This departs from a computation
//! in binary floating point, which first rounds the value to the nearest
//! `f64` and then rounds the product again: there the result can be one
//! millisecond less (`1.005` gives 1005 here, 1004 through `f64`), and a
//! negative value too small for an `f64` (at most 2^-1075 in magnitude)
//! would become `-0.0` and count as zero, where here it is refused as
//! negative.

use vstd::prelude::*;

verus! {

/// The largest number of milliseconds that can be represented.
pub open spec fn ms_cap() -> nat {
    u64::MAX as nat
}

pub open spec fn is_digit(c: char) -> bool {
    '0' <= c && c <= '9'
}

pub open spec fn all_digits(s: Seq<char>) -> bool {
    forall|i: int| 0 <= i < s.len() ==> is_digit(#[trigger] s[i])
}

/// Value of a string of decimal digits (0 for the empty string).
pub open spec fn digits_value(s: Seq<char>) -> nat
    decreases s.len(),
{
    if s.len() == 0 {
        0
    } else {
        digits_value(s.drop_last()) * 10 + ((s.last() as u32) - 48) as nat
    }
}

pub open spec fn pow10(e: nat) -> nat
    decreases e,
{
    if e == 0 {
        1
    } else {
        10 * pow10((e - 1) as nat)
    }
}

/// Index of the first `c` in `s`, or `s.len()` when there is none.
pub open spec fn index_of(s: Seq<char>, c: char) -> int
    decreases s.len(),
{
    if s.len() == 0 {
        0
    } else if s[0] == c {
        0
    } else {
        1 + index_of(s.drop_first(), c)
    }
}

/// Index of the first exponent marker (`e` or `E`), or `s.len()`.
pub open spec fn exp_index(s: Seq<char>) -> int
    decreases s.len(),
{
    if s.len() == 0 {
        0
    } else if s[0] == 'e' || s[0] == 'E' {
        0
    } else {
        1 + exp_index(s.drop_first())
    }
}

/// The number without its sign, and whether the sign was `-`.
pub open spec fn unsigned_part(s: Seq<char>) -> (Seq<char>, bool) {
    if s.len() > 0 && (s[0] == '+' || s[0] == '-') {
        (s.drop_first(), s[0] == '-')
    } else {
        (s, false)
    }
}

/// Integer digits and fraction digits of a mantissa, when it is well formed.
pub open spec fn mantissa_parts(m: Seq<char>) -> Option<(Seq<char>, Seq<char>)> {
    let d = index_of(m, '.');
    let int_part = m.take(d);
    let frac = if d < m.len() { m.skip(d + 1) } else { Seq::empty() };
    if all_digits(int_part) && all_digits(frac) && int_part.len() + frac.len() > 0 {
        Some((int_part, frac))
    } else {
        None
    }
}

/// Value of an exponent (after the marker), when it is well formed.
pub open spec fn exponent_value(x: Seq<char>) -> Option<int> {
    let (digits, neg) = unsigned_part(x);
    if digits.len() > 0 && all_digits(digits) {
        if neg {
            Some(-(digits_value(digits) as int))
        } else {
            Some(digits_value(digits) as int)
        }
    } else {
        None
    }
}

/// `floor(m * 10^k)` for any integer `k`.
pub open spec fn scaled(m: nat, k: int) -> nat {
    if k >= 0 {
        m * pow10(k as nat)
    } else {
        m / pow10((-k) as nat)
    }
}

pub open spec fn min_nat(a: nat, b: nat) -> nat {
    if a <= b {
        a
    } else {
        b
    }
}

/// 2 to the power `n`.
pub open spec fn two_to(n: nat) -> nat
    decreases n,
{
    if n == 0 {
        1
    } else {
        2 * two_to((n - 1) as nat)
    }
}

/// The least value that `str::parse::<f64>` rounds to infinity:
/// 2^1024 − 2^970, halfway between `f64::MAX` and 2^1024 (a tie goes to the
/// even neighbour, which here is infinity).
pub open spec fn f64_overflow() -> nat {
    (two_to(1024) - two_to(970)) as nat
}

/// `m * 10^k` is at least [`f64_overflow`], so that it has no finite `f64`.
pub open spec fn rounds_to_infinity(m: nat, k: int) -> bool {
    if k >= 0 {
        m * pow10(k as nat) >= f64_overflow()
    } else {
        m >= f64_overflow() * pow10((-k) as nat)
    }
}

/// The decimal digits of [`f64_overflow`].
pub open spec fn overflow_digits() -> Seq<char> {
    "179769313486231580793728971405303415079934132710037826936173778980444968292764750946649017977587207096330286416692887910946555547851940402630657488671505820681908902000708383676273854845817711531764475730270069855571366959622842914819860834936475292719074168444365510704342711559699508093042880177904174497792"@
}

/// Milliseconds for a `Crawl-delay` value, or `None` when the value is not
/// a non-negative number that an `f64` can hold.
pub open spec fn delay_ms(v: Seq<char>) -> Option<nat> {
    let (u, neg) = unsigned_part(v);
    let e = exp_index(u);
    let mant = u.take(e);
    let exp = if e < u.len() {
        exponent_value(u.skip(e + 1))
    } else {
        Some(0int)
    };
    match (mantissa_parts(mant), exp) {
        (Some((ip, fp)), Some(x)) => {
            let m = digits_value(ip + fp);
            if neg && m != 0 {
                None
            } else if rounds_to_infinity(m, x - fp.len()) {
                None
            } else {
                Some(min_nat(scaled(m, x - fp.len() + 3), ms_cap()))
            }
        },
        _ => None,
    }
}

// ---------------------------------------------------------------------------
// Lemmas
proof fn lemma_pow10_pos(e: nat)
    ensures
        pow10(e) >= 1,
    decreases e,
{
    if e > 0 {
        lemma_pow10_pos((e - 1) as nat);
    }
}

proof fn lemma_pow10_mono(a: nat, b: nat)
    requires
        a <= b,
    ensures
        pow10(a) <= pow10(b),
    decreases b,
{
    if a < b {
        lemma_pow10_mono(a, (b - 1) as nat);
        lemma_pow10_pos((b - 1) as nat);
    }
}

proof fn lemma_pow10_20()
    ensures
        pow10(20) > u64::MAX,
{
    reveal_with_fuel(pow10, 21);
}

proof fn lemma_digits_value_bound(s: Seq<char>)
    requires
        all_digits(s),
    ensures
        digits_value(s) < pow10(s.len()),
    decreases s.len(),
{
    if s.len() > 0 {
        assert(all_digits(s.drop_last())) by {
            assert forall|i: int| 0 <= i < s.drop_last().len() implies is_digit(
                #[trigger] s.drop_last()[i],
            ) by {
                assert(s.drop_last()[i] == s[i]);
            }
        }
        lemma_digits_value_bound(s.drop_last());
        assert(is_digit(s[s.len() - 1]));
        let d = ((s.last() as u32) - 48) as nat;
        assert(d < 10);
        let p = pow10((s.len() - 1) as nat);
        assert(digits_value(s.drop_last()) + 1 <= p);
        assert((digits_value(s.drop_last()) + 1) * 10 <= p * 10) by (nonlinear_arith)
            requires
                digits_value(s.drop_last()) + 1 <= p,
        ;
    }
}

proof fn lemma_all_digits_take(s: Seq<char>, n: int)
    requires
        all_digits(s),
        0 <= n <= s.len(),
    ensures
        all_digits(s.take(n)),
{
    assert forall|i: int| 0 <= i < s.take(n).len() implies is_digit(#[trigger] s.take(n)[i]) by {
        assert(s.take(n)[i] == s[i]);
    }
}

/// Dropping the last `j` digits divides the value by `10^j`.
proof fn lemma_digits_div(s: Seq<char>, j: nat)
    requires
        all_digits(s),
        j <= s.len(),
    ensures
        digits_value(s) / pow10(j) == digits_value(s.take(s.len() - j)),
    decreases j,
{
    if j == 0 {
        assert(s.take(s.len() as int) == s);
        assert(digits_value(s) / 1 == digits_value(s));
    } else {
        lemma_digits_div(s, (j - 1) as nat);
        let t = s.take(s.len() - (j - 1));
        lemma_all_digits_take(s, s.len() - (j - 1));
        assert(t.len() > 0);
        assert(is_digit(t[t.len() - 1]));
        let d = ((t.last() as u32) - 48) as int;
        assert(0 <= d < 10);
        assert(t.drop_last() == s.take(s.len() - j));
        let q = digits_value(t.drop_last()) as int;
        assert(digits_value(t) == q * 10 + d);
        lemma_pow10_pos((j - 1) as nat);
        vstd::arithmetic::div_mod::lemma_div_denominator(
            digits_value(s) as int,
            pow10((j - 1) as nat) as int,
            10,
        );
        assert(pow10(j) == pow10((j - 1) as nat) * 10) by (nonlinear_arith)
            requires
                pow10(j) == 10 * pow10((j - 1) as nat),
        ;
        vstd::arithmetic::div_mod::lemma_div_multiples_vanish_fancy(q, d, 10);
        assert((10 * q + d) / 10 == q);
        assert(q * 10 + d == 10 * q + d) by (nonlinear_arith);
    }
}

/// Digits strictly shorter than `10^j` vanish when divided by it.
proof fn lemma_digits_div_all(s: Seq<char>, j: nat)
    requires
        all_digits(s),
        j >= s.len(),
    ensures
        digits_value(s) / pow10(j) == 0,
{
    lemma_digits_value_bound(s);
    lemma_pow10_mono(s.len(), j);
    vstd::arithmetic::div_mod::lemma_basic_div(digits_value(s) as int, pow10(j) as int);
}

proof fn lemma_digits_have_no_markers(s: Seq<char>)
    requires
        all_digits(s),
    ensures
        exp_index(s) == s.len(),
        index_of(s, '.') == s.len(),
    decreases s.len(),
{
    if s.len() > 0 {
        assert(is_digit(s[0]));
        assert(all_digits(s.drop_first())) by {
            assert forall|i: int| 0 <= i < s.drop_first().len() implies is_digit(
                #[trigger] s.drop_first()[i],
            ) by {
                assert(s.drop_first()[i] == s[i + 1]);
            }
        }
        lemma_digits_have_no_markers(s.drop_first());
    }
}

/// A whole number of seconds that an `f64` can hold is that many thousand
/// milliseconds (capped at `u64::MAX`).
pub proof fn law_whole_seconds_in_milliseconds(v: Seq<char>)
    requires
        v.len() > 0,
        all_digits(v),
        digits_value(v) < f64_overflow(),
    ensures
        delay_ms(v) == Some(min_nat(digits_value(v) * 1000, ms_cap())),
{
    assert(is_digit(v[0]));
    lemma_digits_have_no_markers(v);
    assert(v.take(v.len() as int) == v);
    assert(v + Seq::<char>::empty() == v);
    reveal_with_fuel(pow10, 4);
    assert(digits_value(v) * pow10(0) == digits_value(v));
}

/// A whole number of seconds too large for an `f64` is refused.
pub proof fn law_overflowing_delay_refused(v: Seq<char>)
    requires
        v.len() > 0,
        all_digits(v),
        digits_value(v) >= f64_overflow(),
    ensures
        delay_ms(v) is None,
{
    assert(is_digit(v[0]));
    lemma_digits_have_no_markers(v);
    assert(v.take(v.len() as int) == v);
    assert(v + Seq::<char>::empty() == v);
    assert(digits_value(v) * pow10(0) == digits_value(v));
}

/// A negative delay other than zero is refused.
pub proof fn law_negative_delay_refused(digits: Seq<char>)
    requires
        digits.len() > 0,
        all_digits(digits),
        digits_value(digits) > 0,
    ensures
        delay_ms(seq!['-'] + digits) is None,
{
    let v = seq!['-'] + digits;
    assert(v.drop_first() == digits);
    lemma_digits_have_no_markers(digits);
    assert(digits.take(digits.len() as int) == digits);
    assert(digits + Seq::<char>::empty() == digits);
}

/// `two_to` turns sums into products.
proof fn lemma_two_to_add(a: nat, b: nat)
    ensures
        two_to(a + b) == two_to(a) * two_to(b),
    decreases b,
{
    if b > 0 {
        lemma_two_to_add(a, (b - 1) as nat);
        assert((a + b - 1) as nat == a + (b - 1) as nat);
        let p = two_to(a);
        let q = two_to((b - 1) as nat);
        assert(2 * (p * q) == p * (2 * q)) by (nonlinear_arith);
    } else {
        assert(two_to(a) * 1 == two_to(a));
    }
}

/// The value of [`f64_overflow`] written out.
proof fn lemma_overflow_value()
    ensures
        f64_overflow() == 179769313486231580793728971405303415079934132710037826936173778980444968292764750946649017977587207096330286416692887910946555547851940402630657488671505820681908902000708383676273854845817711531764475730270069855571366959622842914819860834936475292719074168444365510704342711559699508093042880177904174497792nat,
{
    assert(two_to(64) == 18446744073709551616nat) by {
        reveal_with_fuel(two_to, 65);
    }
    assert(two_to(10) == 1024nat) by {
        reveal_with_fuel(two_to, 11);
    }
    lemma_two_to_add(64, 64);
    assert(two_to(128) == 340282366920938463463374607431768211456nat);
    lemma_two_to_add(128, 128);
    assert(two_to(256) == 115792089237316195423570985008687907853269984665640564039457584007913129639936nat);
    lemma_two_to_add(256, 256);
    assert(two_to(512) == 13407807929942597099574024998205846127479365820592393377723561443721764030073546976801874298166903427690031858186486050853753882811946569946433649006084096nat);
    lemma_two_to_add(512, 512);
    assert(two_to(1024) == 179769313486231590772930519078902473361797697894230657273430081157732675805500963132708477322407536021120113879871393357658789768814416622492847430639474124377767893424865485276302219601246094119453082952085005768838150682342462881473913110540827237163350510684586298239947245938479716304835356329624224137216nat);
    lemma_two_to_add(64, 10);
    assert(two_to(74) == 18889465931478580854784nat);
    lemma_two_to_add(128, 74);
    assert(two_to(202) == 6427752177035961102167848369364650410088811975131171341205504nat);
    lemma_two_to_add(256, 202);
    assert(two_to(458) == 744282853678701455922507579277316643178128753343813693728245963960974631028119473486019635930893891134220822124816566203939432067701407744nat);
    lemma_two_to_add(512, 458);
    assert(two_to(970) == 9979201547673599058281863565184192830337256302177287707512736212186059459344820328924789827463178505446712234220962476219862189941967968303695858991424157101600028364755428382587688607221814935913266783722719619966654052275604351944444276342240220787535604534378780208211792476151720049639424nat);
}

/// Value of the first `i` characters of `s` as digits, counted from the front.
spec fn prefix_value(s: Seq<char>, i: nat) -> nat
    decreases i,
{
    if i == 0 {
        0
    } else {
        prefix_value(s, (i - 1) as nat) * 10 + ((s[i - 1] as u32) - 48) as nat
    }
}

proof fn lemma_prefix_value(s: Seq<char>, i: nat)
    requires
        i <= s.len(),
    ensures
        prefix_value(s, i) == digits_value(s.take(i as int)),
    decreases i,
{
    if i == 0 {
        assert(s.take(0) =~= Seq::<char>::empty());
    } else {
        lemma_prefix_value(s, (i - 1) as nat);
        assert(s.take(i as int).drop_last() =~= s.take(i - 1));
        assert(s.take(i as int).last() == s[i - 1]);
    }
}

proof fn lemma_overflow_shape()
    ensures
        overflow_digits().len() == 309,
        all_digits(overflow_digits()),
        overflow_digits()[0] == '1',
{
    reveal_strlit("179769313486231580793728971405303415079934132710037826936173778980444968292764750946649017977587207096330286416692887910946555547851940402630657488671505820681908902000708383676273854845817711531764475730270069855571366959622842914819860834936475292719074168444365510704342711559699508093042880177904174497792");
}

#[verifier::spinoff_prover]
#[verifier::rlimit(60)]
proof fn lemma_overflow_prefix()
    ensures
        prefix_value(overflow_digits(), 309) == 179769313486231580793728971405303415079934132710037826936173778980444968292764750946649017977587207096330286416692887910946555547851940402630657488671505820681908902000708383676273854845817711531764475730270069855571366959622842914819860834936475292719074168444365510704342711559699508093042880177904174497792nat,
{
    reveal_strlit("179769313486231580793728971405303415079934132710037826936173778980444968292764750946649017977587207096330286416692887910946555547851940402630657488671505820681908902000708383676273854845817711531764475730270069855571366959622842914819860834936475292719074168444365510704342711559699508093042880177904174497792");
    let s = overflow_digits();
    assert(prefix_value(s, 20) == 17976931348623158079nat) by {
        reveal_with_fuel(prefix_value, 21);
    }
    assert(prefix_value(s, 40) == 1797693134862315807937289714053034150799nat) by {
        reveal_with_fuel(prefix_value, 21);
    }
    assert(prefix_value(s, 60) == 179769313486231580793728971405303415079934132710037826936173nat) by {
        reveal_with_fuel(prefix_value, 21);
    }
    assert(prefix_value(s, 80) == 17976931348623158079372897140530341507993413271003782693617377898044496829276475nat) by {
        reveal_with_fuel(prefix_value, 21);
    }
    assert(prefix_value(s, 100) == 1797693134862315807937289714053034150799341327100378269361737789804449682927647509466490179775872070nat) by {
        reveal_with_fuel(prefix_value, 21);
    }
    assert(prefix_value(s, 120) == 179769313486231580793728971405303415079934132710037826936173778980444968292764750946649017977587207096330286416692887910nat) by {
        reveal_with_fuel(prefix_value, 21);
    }
    assert(prefix_value(s, 140) == 17976931348623158079372897140530341507993413271003782693617377898044496829276475094664901797758720709633028641669288791094655554785194040263nat) by {
        reveal_with_fuel(prefix_value, 21);
    }
    assert(prefix_value(s, 160) == 1797693134862315807937289714053034150799341327100378269361737789804449682927647509466490179775872070963302864166928879109465555478519404026306574886715058206819nat) by {
        reveal_with_fuel(prefix_value, 21);
    }
    assert(prefix_value(s, 180) == 179769313486231580793728971405303415079934132710037826936173778980444968292764750946649017977587207096330286416692887910946555547851940402630657488671505820681908902000708383676273nat) by {
        reveal_with_fuel(prefix_value, 21);
    }
    assert(prefix_value(s, 200) == 17976931348623158079372897140530341507993413271003782693617377898044496829276475094664901797758720709633028641669288791094655554785194040263065748867150582068190890200070838367627385484581771153176447nat) by {
        reveal_with_fuel(prefix_value, 21);
    }
    assert(prefix_value(s, 220) == 1797693134862315807937289714053034150799341327100378269361737789804449682927647509466490179775872070963302864166928879109465555478519404026306574886715058206819089020007083836762738548458177115317644757302700698555713669nat) by {
        reveal_with_fuel(prefix_value, 21);
    }
    assert(prefix_value(s, 240) == 179769313486231580793728971405303415079934132710037826936173778980444968292764750946649017977587207096330286416692887910946555547851940402630657488671505820681908902000708383676273854845817711531764475730270069855571366959622842914819860834nat) by {
        reveal_with_fuel(prefix_value, 21);
    }
    assert(prefix_value(s, 260) == 17976931348623158079372897140530341507993413271003782693617377898044496829276475094664901797758720709633028641669288791094655554785194040263065748867150582068190890200070838367627385484581771153176447573027006985557136695962284291481986083493647529271907416844nat) by {
        reveal_with_fuel(prefix_value, 21);
    }
    assert(prefix_value(s, 280) == 1797693134862315807937289714053034150799341327100378269361737789804449682927647509466490179775872070963302864166928879109465555478519404026306574886715058206819089020007083836762738548458177115317644757302700698555713669596228429148198608349364752927190741684443655107043427115596nat) by {
        reveal_with_fuel(prefix_value, 21);
    }
    assert(prefix_value(s, 300) == 179769313486231580793728971405303415079934132710037826936173778980444968292764750946649017977587207096330286416692887910946555547851940402630657488671505820681908902000708383676273854845817711531764475730270069855571366959622842914819860834936475292719074168444365510704342711559699508093042880177904nat) by {
        reveal_with_fuel(prefix_value, 21);
    }
    assert(prefix_value(s, 309) == 179769313486231580793728971405303415079934132710037826936173778980444968292764750946649017977587207096330286416692887910946555547851940402630657488671505820681908902000708383676273854845817711531764475730270069855571366959622842914819860834936475292719074168444365510704342711559699508093042880177904174497792nat) by {
        reveal_with_fuel(prefix_value, 21);
    }
}

/// What [`overflow_digits`] holds: 309 digits, the first `1`, whose value is
/// [`f64_overflow`].
proof fn lemma_overflow_digits()
    ensures
        overflow_digits().len() == 309,
        all_digits(overflow_digits()),
        overflow_digits()[0] == '1',
        digits_value(overflow_digits()) == f64_overflow(),
{
    lemma_overflow_shape();
    lemma_overflow_prefix();
    lemma_prefix_value(overflow_digits(), 309);
    assert(overflow_digits().take(309) =~= overflow_digits());
    lemma_overflow_value();
}

/// `pow10` turns sums into products.
proof fn lemma_pow10_add(a: nat, b: nat)
    ensures
        pow10(a + b) == pow10(a) * pow10(b),
    decreases b,
{
    if b > 0 {
        lemma_pow10_add(a, (b - 1) as nat);
        assert((a + b - 1) as nat == a + (b - 1) as nat);
        let p = pow10(a);
        let q = pow10((b - 1) as nat);
        assert(10 * (p * q) == p * (10 * q)) by (nonlinear_arith);
    } else {
        assert(pow10(a) * 1 == pow10(a));
    }
}

/// A string of `n` zero digits.
pub open spec fn zeros(n: nat) -> Seq<char> {
    Seq::new(n, |i: int| '0')
}

proof fn lemma_zeros(n: nat)
    ensures
        digits_value(zeros(n)) == 0,
        all_digits(zeros(n)),
    decreases n,
{
    if n > 0 {
        lemma_zeros((n - 1) as nat);
        assert(zeros(n).drop_last() =~= zeros((n - 1) as nat));
    }
}

/// Appending digits shifts the value left.
proof fn lemma_digits_concat(a: Seq<char>, b: Seq<char>)
    ensures
        digits_value(a + b) == digits_value(a) * pow10(b.len()) + digits_value(b),
    decreases b.len(),
{
    if b.len() == 0 {
        assert(a + b =~= a);
        assert(digits_value(a) * 1 == digits_value(a));
    } else {
        lemma_digits_concat(a, b.drop_last());
        assert((a + b).drop_last() =~= a + b.drop_last());
        assert((a + b).last() == b.last());
        let d = ((b.last() as u32) - 48) as nat;
        let va = digits_value(a);
        let p = pow10((b.len() - 1) as nat);
        let vb = digits_value(b.drop_last());
        assert((va * p + vb) * 10 + d == va * (10 * p) + (vb * 10 + d)) by (nonlinear_arith);
    }
}

proof fn lemma_all_digits_skip(s: Seq<char>, n: int)
    requires
        all_digits(s),
        0 <= n <= s.len(),
    ensures
        all_digits(s.skip(n)),
{
    assert forall|i: int| 0 <= i < s.skip(n).len() implies is_digit(#[trigger] s.skip(n)[i]) by {
        assert(s.skip(n)[i] == s[n + i]);
    }
}

/// Digits without a leading zero are worth at least `10^(len - 1)`.
proof fn lemma_digits_lower(s: Seq<char>)
    requires
        s.len() > 0,
        all_digits(s),
        s[0] != '0',
    ensures
        digits_value(s) >= pow10((s.len() - 1) as nat),
{
    let h = s.take(1);
    let r = s.skip(1);
    assert(h + r =~= s);
    lemma_digits_concat(h, r);
    assert(h.drop_last() =~= Seq::<char>::empty());
    assert(is_digit(s[0]));
    assert(digits_value(h) >= 1);
    let p = pow10(r.len());
    assert(digits_value(h) * p >= p) by (nonlinear_arith)
        requires
            digits_value(h) >= 1,
    ;
}

/// Equal-length digit strings compare as their first differing digits do.
proof fn lemma_digits_lex(s: Seq<char>, t: Seq<char>, i: int)
    requires
        s.len() == t.len(),
        all_digits(s),
        all_digits(t),
        0 <= i < s.len(),
        s.take(i) == t.take(i),
        s[i] != t[i],
    ensures
        (digits_value(s) >= digits_value(t)) == ((s[i] as u32) > (t[i] as u32)),
{
    let sh = s.take(i + 1);
    let sr = s.skip(i + 1);
    let th = t.take(i + 1);
    let tr = t.skip(i + 1);
    assert(sh + sr =~= s);
    assert(th + tr =~= t);
    lemma_digits_concat(sh, sr);
    lemma_digits_concat(th, tr);
    assert(sh.drop_last() =~= s.take(i));
    assert(th.drop_last() =~= t.take(i));
    lemma_all_digits_skip(s, i + 1);
    lemma_all_digits_skip(t, i + 1);
    lemma_digits_value_bound(sr);
    lemma_digits_value_bound(tr);
    assert(is_digit(s[i]));
    assert(is_digit(t[i]));
    let pv = digits_value(s.take(i));
    let ds = ((s[i] as u32) - 48) as nat;
    let dt = ((t[i] as u32) - 48) as nat;
    let q = pow10(sr.len());
    let rs = digits_value(sr);
    let rt = digits_value(tr);
    assert(sr.len() == tr.len());
    assert(digits_value(s) == (pv * 10 + ds) * q + rs);
    assert(digits_value(t) == (pv * 10 + dt) * q + rt);
    if ds > dt {
        assert((pv * 10 + ds) * q + rs > (pv * 10 + dt) * q + rt) by (nonlinear_arith)
            requires
                ds >= dt + 1,
                rt < q,
                rs >= 0,
        ;
    } else {
        assert((pv * 10 + dt) * q + rt > (pv * 10 + ds) * q + rs) by (nonlinear_arith)
            requires
                dt >= ds + 1,
                rs < q,
                rt >= 0,
        ;
    }
}

// ---------------------------------------------------------------------------
// Executable parts
fn is_digit_exec(c: char) -> (b: bool)
    ensures
        b == is_digit(c),
{
    '0' <= c && c <= '9'
}

fn digit_of(c: char) -> (d: u64)
    requires
        is_digit(c),
    ensures
        d == ((c as u32) - 48) as nat,
        d < 10,
{
    (c as u32 - 48) as u64
}

/// `min(value of s[a..b], cap)` for digits, with saturating arithmetic.
fn saturating_digits(s: &[char], a: usize, b: usize, cap: u128) -> (r: u128)
    requires
        a <= b <= s@.len(),
        all_digits(s@.subrange(a as int, b as int)),
        cap >= 10,
    ensures
        r == min_nat(digits_value(s@.subrange(a as int, b as int)), cap as nat),
{
    let mut r: u128 = 0;
    let mut i = a;
    while i < b
        invariant
            a <= i <= b <= s@.len(),
            cap >= 10,
            all_digits(s@.subrange(a as int, b as int)),
            r == min_nat(digits_value(s@.subrange(a as int, i as int)), cap as nat),
        decreases b - i,
    {
        let ghost prev = s@.subrange(a as int, i as int);
        let ghost next = s@.subrange(a as int, i + 1);
        assert(next.drop_last() == prev);
        assert(s@.subrange(a as int, b as int)[i - a] == s@[i as int]);
        let d = digit_of(s[i]) as u128;
        assert(digits_value(next) == digits_value(prev) * 10 + d);
        if r == cap {
            assert(digits_value(prev) >= cap);
            assert(digits_value(prev) * 10 + d >= cap) by (nonlinear_arith)
                requires
                    digits_value(prev) >= cap,
                    d >= 0,
            ;
        } else if r > (cap - d) / 10 {
            assert(r == digits_value(prev));
            assert(r * 10 + d > cap) by (nonlinear_arith)
                requires
                    r > (cap - d) / 10,
                    d <= 10,
                    d <= cap,
            ;
            r = cap;
        } else {
            assert(r * 10 + d <= cap) by (nonlinear_arith)
                requires
                    r <= (cap - d) / 10,
                    d <= cap,
            ;
            r = r * 10 + d;
        }
        i = i + 1;
    }
    r
}

/// The bound beyond which an exponent's exact value no longer matters.
fn big_exponent() -> (b: u128)
    ensures
        b == 0x2_0000_0000_0000_0000u128,
{
    0x2_0000_0000_0000_0000u128
}

/// Position of the first `c` in `s`, or `s.len()`.
pub fn index_of_exec(s: &[char], c: char) -> (i: usize)
    ensures
        i == index_of(s@, c),
        i <= s@.len(),
        forall|k: int| 0 <= k < i ==> s@[k] != c,
        i < s@.len() ==> s@[i as int] == c,
{
    let mut i: usize = 0;
    assert(s@.skip(0) == s@);
    while i < s.len() && s[i] != c
        invariant
            i <= s@.len(),
            forall|k: int| 0 <= k < i ==> s@[k] != c,
            index_of(s@, c) == i + index_of(s@.skip(i as int), c),
        decreases s.len() - i,
    {
        assert(s@.skip(i as int).drop_first() == s@.skip(i + 1));
        i = i + 1;
    }
    i
}

fn exp_index_exec(s: &[char]) -> (i: usize)
    ensures
        i == exp_index(s@),
        i <= s@.len(),
{
    let mut i: usize = 0;
    assert(s@.skip(0) == s@);
    while i < s.len() && s[i] != 'e' && s[i] != 'E'
        invariant
            i <= s@.len(),
            exp_index(s@) == i + exp_index(s@.skip(i as int)),
        decreases s.len() - i,
    {
        assert(s@.skip(i as int).drop_first() == s@.skip(i + 1));
        i = i + 1;
    }
    i
}

fn all_digits_exec(s: &[char], a: usize, b: usize) -> (r: bool)
    requires
        a <= b <= s@.len(),
    ensures
        r == all_digits(s@.subrange(a as int, b as int)),
{
    let mut i = a;
    while i < b
        invariant
            a <= i <= b <= s@.len(),
            forall|k: int| a <= k < i ==> is_digit(#[trigger] s@[k]),
        decreases b - i,
    {
        if !is_digit_exec(s[i]) {
            assert(s@.subrange(a as int, b as int)[i - a] == s@[i as int]);
            return false;
        }
        i = i + 1;
    }
    assert forall|k: int| 0 <= k < b - a implies is_digit(
        #[trigger] s@.subrange(a as int, b as int)[k],
    ) by {
        assert(s@.subrange(a as int, b as int)[k] == s@[a + k]);
    }
    true
}

/// `min(m * 10^k, u64::MAX)` for `m <= u64::MAX`.
fn scale_up(m: u128, k: u128) -> (r: u64)
    requires
        m <= u64::MAX,
    ensures
        r == min_nat((m * pow10(k as nat)) as nat, ms_cap()),
{
    let cap: u128 = 0xFFFF_FFFF_FFFF_FFFFu128;
    let mut r: u128 = m;
    let mut i: u128 = 0;
    assert(pow10(0) == 1);
    assert(m * 1 == m);
    while i < k && r != 0 && r != cap
        invariant
            i <= k,
            m <= cap,
            cap == u64::MAX,
            r == min_nat((m * pow10(i as nat)) as nat, cap as nat),
        decreases k - i,
    {
        let ghost old_i = i;
        assert(pow10((i + 1) as nat) == 10 * pow10(i as nat));
        assert(m * pow10((i + 1) as nat) == (m * pow10(i as nat)) * 10) by (nonlinear_arith)
            requires
                pow10((i + 1) as nat) == 10 * pow10(i as nat),
        ;
        if r > cap / 10 {
            assert(m * pow10(i as nat) == r);
            assert(r * 10 > cap) by (nonlinear_arith)
                requires
                    r > cap / 10,
            ;
            r = cap;
        } else {
            assert(m * pow10(i as nat) == r);
            r = r * 10;
        }
        i = i + 1;
    }
    proof {
        lemma_pow10_pos(i as nat);
        lemma_pow10_mono(i as nat, k as nat);
        if r == 0 {
            assert(m == 0) by (nonlinear_arith)
                requires
                    m * pow10(i as nat) == 0,
                    pow10(i as nat) >= 1,
            ;
            assert(m * pow10(k as nat) == 0) by (nonlinear_arith)
                requires
                    m == 0,
            ;
        } else if r == cap {
            assert(m * pow10(i as nat) >= cap);
            assert(m * pow10(k as nat) >= m * pow10(i as nat)) by (nonlinear_arith)
                requires
                    pow10(k as nat) >= pow10(i as nat),
            ;
        }
    }
    r as u64
}

/// The exponent after the marker at `e`: its sign and `min(magnitude, big)`.
fn parse_exponent(u: &[char], e: usize) -> (r: Option<(bool, u128)>)
    requires
        e < u.len(),
    ensures
        r.is_some() == exponent_value(u@.skip(e + 1)).is_some(),
        r matches Some((neg, mag)) ==> {
            let x = exponent_value(u@.skip(e + 1)).unwrap();
            &&& mag == min_nat(
                if neg {
                    (-x) as nat
                } else {
                    x as nat
                },
                0x2_0000_0000_0000_0000,
            )
            &&& (x < 0 ==> neg)
            &&& (neg ==> x <= 0)
        },
{
    let x = crate::text::slice_chars(u, e + 1, u.len());
    assert(x@ == u@.skip(e + 1));
    let x_signed = x.len() > 0 && (x[0] == '+' || x[0] == '-');
    let neg = x_signed && x[0] == '-';
    let xs: usize = if x_signed {
        1
    } else {
        0
    };
    assert(x@.subrange(xs as int, x@.len() as int) == unsigned_part(x@).0);
    if xs >= x.len() || !all_digits_exec(&x, xs, x.len()) {
        return None;
    }
    let mag = saturating_digits(&x, xs, x.len(), big_exponent());
    Some((neg, mag))
}

/// Integer and fraction digits of a mantissa, joined, and the number of
/// fraction digits.
fn parse_mantissa(mant: &[char]) -> (r: Option<(Vec<char>, usize)>)
    ensures
        r.is_some() == mantissa_parts(mant@).is_some(),
        r matches Some((digits, f)) ==> {
            let (ip, fp) = mantissa_parts(mant@).unwrap();
            &&& digits@ == ip + fp
            &&& f == fp.len()
            &&& all_digits(digits@)
        },
{
    let d = index_of_exec(mant, '.');
    let frac_start: usize = if d < mant.len() {
        d + 1
    } else {
        mant.len()
    };
    assert(mant@.subrange(0, d as int) == mant@.take(d as int));
    assert(mant@.subrange(frac_start as int, mant@.len() as int) == (if d < mant@.len() {
        mant@.skip(d + 1)
    } else {
        Seq::empty()
    }));
    if !all_digits_exec(mant, 0, d) || !all_digits_exec(mant, frac_start, mant.len()) {
        return None;
    }
    let frac_len = mant.len() - frac_start;
    if d + frac_len == 0 {
        return None;
    }
    let ghost ip = mant@.take(d as int);
    let ghost fp = mant@.subrange(frac_start as int, mant@.len() as int);
    let mut digits = crate::text::slice_chars(mant, 0, d);
    let frac = crate::text::slice_chars(mant, frac_start, mant.len());
    let mut j: usize = 0;
    while j < frac.len()
        invariant
            j <= frac@.len(),
            digits@ == ip + frac@.take(j as int),
        decreases frac.len() - j,
    {
        digits.push(frac[j]);
        assert(frac@.take(j + 1) == frac@.take(j as int).push(frac@[j as int]));
        j = j + 1;
    }
    assert(frac@.take(frac@.len() as int) == frac@);
    assert(all_digits(digits@)) by {
        assert forall|i: int| 0 <= i < digits@.len() implies is_digit(#[trigger] digits@[i]) by {
            if i < ip.len() {
                assert(digits@[i] == ip[i]);
            } else {
                assert(digits@[i] == fp[i - ip.len()]);
            }
        }
    }
    Some((digits, frac_len))
}

/// `min(floor(value(digits) * 10^k), u64::MAX)` where `k` is the exponent
/// (sign `exp_neg`, magnitude `mag`, at least `big` when `mag == big`)
/// minus `frac_len`, plus 3.
fn scaled_ms(digits: &Vec<char>, frac_len: usize, exp_neg: bool, mag: u128, Ghost(x): Ghost<int>)
    -> (r: u64)
    requires
        all_digits(digits@),
        frac_len <= digits@.len(),
        mag == min_nat(
            if exp_neg {
                (-x) as nat
            } else {
                x as nat
            },
            0x2_0000_0000_0000_0000,
        ),
        x < 0 ==> exp_neg,
        exp_neg ==> x <= 0,
    ensures
        r == min_nat(scaled(digits_value(digits@), x - frac_len + 3), ms_cap()),
{
    let ghost m = digits_value(digits@);
    let ghost kv: int = x - frac_len + 3;
    let n = digits.len();
    let cap: u128 = 0xFFFF_FFFF_FFFF_FFFFu128;
    assert(digits@.subrange(0, digits@.len() as int) == digits@);
    let m_sat = saturating_digits(digits, 0, n, cap);
    if mag == big_exponent() {
        if exp_neg {
            proof {
                assert(-kv >= n);
                lemma_digits_div_all(digits@, (-kv) as nat);
            }
            return 0;
        } else if m_sat == 0 {
            assert(m * pow10(kv as nat) == 0) by (nonlinear_arith)
                requires
                    m == 0,
            ;
            return 0;
        } else {
            proof {
                assert(kv >= 20);
                lemma_pow10_20();
                lemma_pow10_mono(20, kv as nat);
                assert(m * pow10(kv as nat) >= pow10(20)) by (nonlinear_arith)
                    requires
                        m >= 1,
                        pow10(kv as nat) >= pow10(20),
                ;
            }
            return 0xFFFF_FFFF_FFFF_FFFFu64;
        }
    }
    let kk: i128 = if exp_neg {
        3i128 - (mag as i128) - (frac_len as i128)
    } else {
        3i128 + (mag as i128) - (frac_len as i128)
    };
    assert(kk == kv);
    if kk >= 0 {
        let r = scale_up(m_sat, kk as u128);
        proof {
            lemma_pow10_pos(kk as nat);
            if m > cap {
                assert(m * pow10(kk as nat) >= m) by (nonlinear_arith)
                    requires
                        pow10(kk as nat) >= 1,
                ;
                assert(m_sat * pow10(kk as nat) >= m_sat) by (nonlinear_arith)
                    requires
                        pow10(kk as nat) >= 1,
                ;
            }
        }
        r
    } else {
        let j = (-kk) as u128;
        if j >= n as u128 {
            proof {
                lemma_digits_div_all(digits@, j as nat);
            }
            0
        } else {
            let keep = n - (j as usize);
            proof {
                lemma_digits_div(digits@, j as nat);
                lemma_all_digits_take(digits@, keep as int);
                assert(digits@.subrange(0, keep as int) == digits@.take(keep as int));
            }
            let r = saturating_digits(digits, 0, keep, cap);
            r as u64
        }
    }
}

/// Whether `value(digits) * 10^(x - frac_len)` has no finite `f64`, where the
/// exponent `x` has sign `exp_neg` and magnitude `mag` (at least `big` when
/// `mag == big`).
fn overflows(digits: &Vec<char>, frac_len: usize, exp_neg: bool, mag: u128, Ghost(x): Ghost<int>)
    -> (b: bool)
    requires
        all_digits(digits@),
        frac_len <= digits@.len(),
        mag == min_nat(
            if exp_neg {
                (-x) as nat
            } else {
                x as nat
            },
            0x2_0000_0000_0000_0000,
        ),
        x < 0 ==> exp_neg,
        exp_neg ==> x <= 0,
    ensures
        b == rounds_to_infinity(digits_value(digits@), x - frac_len),
{
    let ghost m = digits_value(digits@);
    let ghost k: int = x - frac_len;
    let ghost t = f64_overflow();
    proof {
        lemma_overflow_digits();
        lemma_digits_lower(overflow_digits());
        lemma_digits_value_bound(overflow_digits());
    }
    let n = digits.len();
    let mut z: usize = 0;
    while z < n && digits[z] == '0'
        invariant
            z <= n == digits@.len(),
            forall|j: int| 0 <= j < z ==> digits@[j] == '0',
        decreases n - z,
    {
        z = z + 1;
    }
    let ghost d = digits@.skip(z as int);
    proof {
        assert(digits@.take(z as int) =~= zeros(z as nat));
        lemma_zeros(z as nat);
        assert(digits@.take(z as int) + d =~= digits@);
        lemma_digits_concat(digits@.take(z as int), d);
        assert(m == digits_value(d));
        lemma_all_digits_skip(digits@, z as int);
    }
    if z == n {
        proof {
            assert(d =~= Seq::<char>::empty());
            assert(m == 0);
            lemma_pow10_pos((-k) as nat);
            if k < 0 {
                assert(t * pow10((-k) as nat) >= t) by (nonlinear_arith)
                    requires
                        pow10((-k) as nat) >= 1,
                ;
            } else {
                assert(m * pow10(k as nat) == 0) by (nonlinear_arith)
                    requires
                        m == 0,
                ;
            }
        }
        return false;
    }
    let l = n - z;
    proof {
        assert(d[0] == digits@[z as int]);
        lemma_digits_lower(d);
        lemma_digits_value_bound(d);
    }
    let ghost lo = pow10((l - 1) as nat);
    let ghost hi = pow10(l as nat);
    // lo <= m < hi
    if mag == big_exponent() {
        if exp_neg {
            proof {
                // -k >= 2^65 > l
                lemma_pow10_mono(l as nat, (-k) as nat);
                lemma_pow10_pos((-k) as nat);
                assert(t * pow10((-k) as nat) >= pow10((-k) as nat)) by (nonlinear_arith)
                    requires
                        t >= 1,
                        pow10((-k) as nat) >= 1,
                ;
            }
            return false;
        } else {
            proof {
                lemma_pow10_mono(309, k as nat);
                lemma_pow10_pos((l - 1) as nat);
                assert(m * pow10(k as nat) >= pow10(k as nat)) by (nonlinear_arith)
                    requires
                        m >= 1,
                ;
            }
            return true;
        }
    }
    let kk: i128 = if exp_neg {
        0i128 - (mag as i128) - (frac_len as i128)
    } else {
        (mag as i128) - (frac_len as i128)
    };
    assert(kk == k);
    let pos: i128 = (l as i128) + kk;
    if pos <= 308 {
        proof {
            if k >= 0 {
                lemma_pow10_add(l as nat, k as nat);
                lemma_pow10_mono((l + k) as nat, 308);
                lemma_pow10_pos(k as nat);
                assert(m * pow10(k as nat) < hi * pow10(k as nat)) by (nonlinear_arith)
                    requires
                        m < hi,
                        pow10(k as nat) >= 1,
                ;
            } else {
                lemma_pow10_mono(l as nat, (308 - k) as nat);
                lemma_pow10_add(308, (-k) as nat);
                lemma_pow10_pos((-k) as nat);
                assert(pow10(308) * pow10((-k) as nat) <= t * pow10((-k) as nat)) by (nonlinear_arith)
                    requires
                        pow10(308) <= t,
                ;
            }
        }
        return false;
    }
    if pos >= 310 {
        proof {
            if k >= 0 {
                lemma_pow10_add((l - 1) as nat, k as nat);
                lemma_pow10_mono(309, (l - 1 + k) as nat);
                lemma_pow10_pos(k as nat);
                assert(m * pow10(k as nat) >= lo * pow10(k as nat)) by (nonlinear_arith)
                    requires
                        m >= lo,
                ;
            } else {
                lemma_pow10_mono((309 - k) as nat, (l - 1) as nat);
                lemma_pow10_add(309, (-k) as nat);
                lemma_pow10_pos((-k) as nat);
                assert(pow10(309) * pow10((-k) as nat) > t * pow10((-k) as nat)) by (nonlinear_arith)
                    requires
                        pow10(309) > t,
                        pow10((-k) as nat) >= 1,
                ;
            }
        }
        return true;
    }
    // The value has exactly 309 digits before the decimal point: compare
    // its digits with those of the bound, both padded with zeros to the
    // same length.
    let td = crate::text::chars_of("179769313486231580793728971405303415079934132710037826936173778980444968292764750946649017977587207096330286416692887910946555547851940402630657488671505820681908902000708383676273854845817711531764475730270069855571366959622842914819860834936475292719074168444365510704342711559699508093042880177904174497792");
    let nn: usize = if l > 309 {
        l
    } else {
        309
    };
    let ghost a = d + zeros((nn - l) as nat);
    let ghost bb = overflow_digits() + zeros((nn - 309) as nat);
    proof {
        lemma_zeros((nn - l) as nat);
        lemma_zeros((nn - 309) as nat);
        lemma_digits_concat(d, zeros((nn - l) as nat));
        lemma_digits_concat(overflow_digits(), zeros((nn - 309) as nat));
        assert(all_digits(a)) by {
            assert forall|j: int| 0 <= j < a.len() implies is_digit(#[trigger] a[j]) by {
                if j < l {
                    assert(a[j] == d[j]);
                } else {
                    assert(a[j] == zeros((nn - l) as nat)[j - l]);
                }
            }
        }
        assert(all_digits(bb)) by {
            assert forall|j: int| 0 <= j < bb.len() implies is_digit(#[trigger] bb[j]) by {
                if j < 309 {
                    assert(bb[j] == overflow_digits()[j]);
                } else {
                    assert(bb[j] == zeros((nn - 309) as nat)[j - 309]);
                }
            }
        }
        // Both padded values scale the two sides of the comparison alike.
        if l <= 309 {
            assert(pow10(0) == 1);
            assert(digits_value(bb) == t);
            assert(digits_value(a) == m * pow10(k as nat));
        } else {
            assert(pow10(0) == 1);
            assert(digits_value(a) == m);
            assert(digits_value(bb) == t * pow10((-k) as nat));
        }
        assert(rounds_to_infinity(m, k) == (digits_value(a) >= digits_value(bb)));
    }
    let mut i: usize = 0;
    while i < nn
        invariant
            i <= nn,
            a.len() == nn,
            bb.len() == nn,
            l == d.len(),
            z + l == n == digits@.len(),
            d == digits@.skip(z as int),
            td@ == overflow_digits(),
            overflow_digits().len() == 309,
            a == d + zeros((nn - l) as nat),
            bb == overflow_digits() + zeros((nn - 309) as nat),
            a.take(i as int) == bb.take(i as int),
            all_digits(a),
            all_digits(bb),
            rounds_to_infinity(m, k) == (digits_value(a) >= digits_value(bb)),
            m == digits_value(digits@),
            k == x - frac_len,
        decreases nn - i,
    {
        let ca = if i < l {
            digits[z + i]
        } else {
            '0'
        };
        let cb = if i < 309 {
            td[i]
        } else {
            '0'
        };
        assert(ca == a[i as int]);
        assert(cb == bb[i as int]);
        if ca != cb {
            proof {
                lemma_digits_lex(a, bb, i as int);
            }
            return (ca as u32) > (cb as u32);
        }
        assert(a.take(i + 1) =~= a.take(i as int).push(ca));
        assert(bb.take(i + 1) =~= bb.take(i as int).push(cb));
        i = i + 1;
    }
    assert(a =~= a.take(nn as int));
    assert(bb =~= bb.take(nn as int));
    true
}

/// Milliseconds for a `Crawl-delay` value (see the module documentation).
pub fn parse_delay_ms(v: &[char]) -> (r: Option<u64>)
    ensures
        r.is_some() == delay_ms(v@).is_some(),
        r.is_some() ==> r.unwrap() as nat == delay_ms(v@).unwrap(),
{
    let has_sign = v.len() > 0 && (v[0] == '+' || v[0] == '-');
    let neg = has_sign && v[0] == '-';
    let start: usize = if has_sign {
        1
    } else {
        0
    };
    let u = crate::text::slice_chars(v, start, v.len());
    assert(u@ == unsigned_part(v@).0);
    let e = exp_index_exec(&u);
    let mant = crate::text::slice_chars(&u, 0, e);
    assert(mant@ == u@.take(e as int));
    let (exp_neg, mag) = if e < u.len() {
        match parse_exponent(&u, e) {
            Some(p) => p,
            None => {
                return None;
            },
        }
    } else {
        (false, 0u128)
    };
    let ghost x: int = if e < u@.len() {
        exponent_value(u@.skip(e + 1)).unwrap()
    } else {
        0
    };
    let (digits, frac_len) = match parse_mantissa(&mant) {
        Some(p) => p,
        None => {
            return None;
        },
    };
    assert(digits@.subrange(0, digits@.len() as int) == digits@);
    let m_sat = saturating_digits(&digits, 0, digits.len(), 0xFFFF_FFFF_FFFF_FFFFu128);
    if neg && m_sat != 0 {
        return None;
    }
    if overflows(&digits, frac_len, exp_neg, mag, Ghost(x)) {
        return None;
    }
    Some(scaled_ms(&digits, frac_len, exp_neg, mag, Ghost(x)))
}

} // verus!

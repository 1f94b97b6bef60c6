//! Decimal text to the ledger's fixed-point integer, truncating past the
//! last kept decimal place.
use vstd::prelude::*;
use vstd::string::StrSliceExecFns;

use crate::errors::EncodeError;

verus! {

/// Number of decimal places kept by the fixed-point encoding.
pub const SCALE_DIGITS: usize = 18;

pub open spec fn is_digit(c: char) -> bool {
    '0' <= c && c <= '9'
}

pub open spec fn digit_value(c: char) -> nat {
    (c as int - '0' as int) as nat
}

pub open spec fn all_digits(s: Seq<char>) -> bool {
    forall|i: int| 0 <= i < s.len() ==> #[trigger] is_digit(s[i])
}

/// The number that a string of decimal digits spells.
pub open spec fn digits_value(s: Seq<char>) -> nat
    decreases s.len(),
{
    if s.len() == 0 {
        0
    } else {
        digits_value(s.drop_last()) * 10 + digit_value(s.last())
    }
}

/// The first `SCALE_DIGITS` places of a fraction, padded with zeros.
pub open spec fn fraction_window(f: Seq<char>) -> Seq<char> {
    Seq::new(SCALE_DIGITS as nat, |i: int| if i < f.len() { f[i] } else { '0' })
}

/// `s` reads as digits up to `p`, then either ends or goes on with a point
/// and at least one more digit, and nothing else.
pub open spec fn splits_at(s: Seq<char>, p: int) -> bool {
    &&& 0 < p <= s.len()
    &&& all_digits(s.take(p))
    &&& p == s.len() || (s[p] == '.' && p + 1 < s.len() && all_digits(s.skip(p + 1)))
}

/// Plain decimal notation: `123`, `0.25`; no sign, no exponent.
pub open spec fn is_plain_decimal(s: Seq<char>) -> bool {
    exists|p: int| splits_at(s, p)
}

pub open spec fn point_of(s: Seq<char>) -> int {
    choose|p: int| splits_at(s, p)
}

pub open spec fn fraction_of(s: Seq<char>, p: int) -> Seq<char> {
    if p < s.len() {
        s.skip(p + 1)
    } else {
        Seq::empty()
    }
}

/// The digits of the value times ten to the `SCALE_DIGITS`, places past the
/// last kept one dropped.
pub open spec fn scaled_digits(s: Seq<char>) -> Seq<char> {
    s.take(point_of(s)) + fraction_window(fraction_of(s, point_of(s)))
}

/// The fixed-point value of plain decimal text: truncated, never rounded.
pub open spec fn fixed_value(s: Seq<char>) -> nat {
    digits_value(scaled_digits(s))
}

proof fn lemma_digits_step(s: Seq<char>, j: int)
    requires
        0 <= j < s.len(),
    ensures
        digits_value(s.take(j + 1)) == digits_value(s.take(j)) * 10 + digit_value(s[j]),
{
    assert(s.take(j + 1).drop_last() =~= s.take(j));
}

proof fn lemma_prefix_le(s: Seq<char>, k: int)
    requires
        0 <= k <= s.len(),
    ensures
        digits_value(s.take(k)) <= digits_value(s),
    decreases s.len(),
{
    if k < s.len() {
        lemma_prefix_le(s.drop_last(), k);
        assert(s.drop_last().take(k) =~= s.take(k));
    } else {
        assert(s.take(k) =~= s);
    }
}

/// Where the leading digits of `s` end is the only place it can split.
proof fn lemma_split_unique(s: Seq<char>, p: int)
    requires
        0 <= p <= s.len(),
        all_digits(s.take(p)),
        p == s.len() || !is_digit(s[p]),
    ensures
        forall|q: int| splits_at(s, q) ==> q == p,
{
    assert forall|q: int| splits_at(s, q) implies q == p by {
        if q < p {
            assert(is_digit(s.take(p)[q]));
            assert(s.take(p)[q] == s[q]);
        } else if q > p {
            assert(is_digit(s.take(q)[p]));
            assert(s.take(q)[p] == s[p]);
        }
    }
}

/// Ten to the `k`.
pub open spec fn pow10(k: nat) -> nat
    decreases k,
{
    if k == 0 {
        1
    } else {
        10 * pow10((k - 1) as nat)
    }
}

/// The character of a decimal digit.
pub open spec fn digit_char(d: nat) -> char {
    if d == 0 {
        '0'
    } else if d == 1 {
        '1'
    } else if d == 2 {
        '2'
    } else if d == 3 {
        '3'
    } else if d == 4 {
        '4'
    } else if d == 5 {
        '5'
    } else if d == 6 {
        '6'
    } else if d == 7 {
        '7'
    } else if d == 8 {
        '8'
    } else {
        '9'
    }
}

/// The shortest decimal digits of `n`.
pub open spec fn whole_digits(n: nat) -> Seq<char>
    decreases n,
{
    if n < 10 {
        seq![digit_char(n)]
    } else {
        whole_digits(n / 10).push(digit_char(n % 10))
    }
}

/// The last `k` decimal digits of `n`, with leading zeros.
pub open spec fn place_digits(n: nat, k: nat) -> Seq<char>
    decreases k,
{
    if k == 0 {
        Seq::empty()
    } else {
        place_digits(n / 10, (k - 1) as nat).push(digit_char(n % 10))
    }
}

/// A fixed-point value written out in full: the whole part, a point, and
/// every kept decimal place.
pub open spec fn render_fixed(v: u128) -> Seq<char> {
    whole_digits(v as nat / pow10(SCALE_DIGITS as nat)) + seq!['.'] + place_digits(
        v as nat % pow10(SCALE_DIGITS as nat),
        SCALE_DIGITS as nat,
    )
}

proof fn lemma_pow10_positive(k: nat)
    ensures
        pow10(k) > 0,
    decreases k,
{
    if k > 0 {
        lemma_pow10_positive((k - 1) as nat);
    }
}

proof fn lemma_digit_char(d: nat)
    requires
        d < 10,
    ensures
        is_digit(digit_char(d)),
        digit_value(digit_char(d)) == d,
{
}

proof fn lemma_push_digit(s: Seq<char>, c: char)
    ensures
        digits_value(s.push(c)) == digits_value(s) * 10 + digit_value(c),
{
    assert(s.push(c).drop_last() =~= s);
}

proof fn lemma_whole_digits(n: nat)
    ensures
        all_digits(whole_digits(n)),
        digits_value(whole_digits(n)) == n,
    decreases n,
{
    lemma_digit_char(n % 10);
    if n < 10 {
        lemma_push_digit(Seq::empty(), digit_char(n));
        assert(Seq::<char>::empty().push(digit_char(n)) =~= seq![digit_char(n)]);
    } else {
        lemma_whole_digits(n / 10);
        lemma_push_digit(whole_digits(n / 10), digit_char(n % 10));
        vstd::arithmetic::div_mod::lemma_fundamental_div_mod(n as int, 10);
        let w = whole_digits(n / 10).push(digit_char(n % 10));
        assert forall|i: int| 0 <= i < w.len() implies #[trigger] is_digit(w[i]) by {
            if i < w.len() - 1 {
                assert(w[i] == whole_digits(n / 10)[i]);
            }
        }
    }
}

proof fn lemma_place_digits(n: nat, k: nat)
    ensures
        all_digits(place_digits(n, k)),
        place_digits(n, k).len() == k,
        digits_value(place_digits(n, k)) == n % pow10(k),
    decreases k,
{
    if k > 0 {
        let k1 = (k - 1) as nat;
        lemma_place_digits(n / 10, k1);
        lemma_digit_char(n % 10);
        lemma_push_digit(place_digits(n / 10, k1), digit_char(n % 10));
        lemma_pow10_positive(k1);
        vstd::arithmetic::div_mod::lemma_mod_breakdown(n as int, 10, pow10(k1) as int);
        let w = place_digits(n / 10, k1).push(digit_char(n % 10));
        assert forall|i: int| 0 <= i < w.len() implies #[trigger] is_digit(w[i]) by {
            if i < w.len() - 1 {
                assert(w[i] == place_digits(n / 10, k1)[i]);
            }
        }
    }
}

proof fn lemma_digits_concat(a: Seq<char>, b: Seq<char>)
    ensures
        digits_value(a + b) == digits_value(a) * pow10(b.len()) + digits_value(b),
    decreases b.len(),
{
    if b.len() == 0 {
        assert(a + b =~= a);
        assert(pow10(0) == 1);
        assert(digits_value(a) * 1 == digits_value(a));
    } else {
        let b1 = b.drop_last();
        lemma_digits_concat(a, b1);
        assert((a + b).drop_last() =~= a + b1);
        assert((a + b).last() == b.last());
        let x = digits_value(a);
        let p = pow10(b1.len());
        let y = digits_value(b1);
        assert((x * p + y) * 10 == x * (10 * p) + y * 10) by (nonlinear_arith);
        assert(pow10(b.len()) == 10 * p);
        assert(digits_value(b) == y * 10 + digit_value(b.last()));
        assert(digits_value(a + b) == (x * p + y) * 10 + digit_value(b.last()));
        assert(x * pow10(b.len()) == x * (10 * p));
    }
}

/// Writing a fixed-point value out in full and encoding the text gives the
/// value back.
pub proof fn law_render_then_encode(v: u128)
    ensures
        is_plain_decimal(render_fixed(v)),
        fixed_value(render_fixed(v)) == v,
{
    let big = pow10(SCALE_DIGITS as nat);
    lemma_pow10_positive(SCALE_DIGITS as nat);
    let q = v as nat / big;
    let r = v as nat % big;
    let w = whole_digits(q);
    let f = place_digits(r, SCALE_DIGITS as nat);
    lemma_whole_digits(q);
    lemma_place_digits(r, SCALE_DIGITS as nat);
    let s = render_fixed(v);
    assert(s == w + seq!['.'] + f);
    let p = w.len() as int;
    assert(s.take(p) =~= w);
    assert(s.skip(p + 1) =~= f);
    assert(s[p] == '.');
    assert(splits_at(s, p));
    lemma_split_unique(s, p);
    assert(point_of(s) == p);
    assert(fraction_window(f) =~= f);
    assert(scaled_digits(s) =~= w + f);
    lemma_digits_concat(w, f);
    assert(r < big) by {
        vstd::arithmetic::div_mod::lemma_mod_bound(v as int, big as int);
    }
    assert(r % big == r) by {
        vstd::arithmetic::div_mod::lemma_small_mod(r, big);
    }
    vstd::arithmetic::div_mod::lemma_fundamental_div_mod(v as int, big as int);
    assert(q * big == big * q) by (nonlinear_arith);
}

/// Ten to the `SCALE_DIGITS`: one whole unit in fixed point.
pub const FIXED_ONE: u128 = 1_000_000_000_000_000_000;

fn digit_text(d: u128) -> (r: &'static str)
    requires
        d < 10,
    ensures
        r@ == seq![digit_char(d as nat)],
{
    proof {
        reveal_strlit("0");
        reveal_strlit("1");
        reveal_strlit("2");
        reveal_strlit("3");
        reveal_strlit("4");
        reveal_strlit("5");
        reveal_strlit("6");
        reveal_strlit("7");
        reveal_strlit("8");
        reveal_strlit("9");
    }
    if d == 0 {
        "0"
    } else if d == 1 {
        "1"
    } else if d == 2 {
        "2"
    } else if d == 3 {
        "3"
    } else if d == 4 {
        "4"
    } else if d == 5 {
        "5"
    } else if d == 6 {
        "6"
    } else if d == 7 {
        "7"
    } else if d == 8 {
        "8"
    } else {
        "9"
    }
}

fn push_whole(out: &mut String, n: u128)
    ensures
        final(out)@ == old(out)@ + whole_digits(n as nat),
    decreases n,
{
    if n >= 10 {
        push_whole(out, n / 10);
    }
    out.append(digit_text(n % 10));
    assert(final(out)@ =~= old(out)@ + whole_digits(n as nat));
}

fn push_places(out: &mut String, n: u128, k: usize)
    ensures
        final(out)@ == old(out)@ + place_digits(n as nat, k as nat),
    decreases k,
{
    if k > 0 {
        push_places(out, n / 10, k - 1);
        out.append(digit_text(n % 10));
        assert(final(out)@ =~= old(out)@ + place_digits(n as nat, k as nat));
    } else {
        assert(final(out)@ =~= old(out)@ + place_digits(n as nat, k as nat));
    }
}

/// Writes a fixed-point value out in full, every kept decimal place shown.
pub fn decode_fixed(v: u128) -> (r: String)
    ensures
        r@ == render_fixed(v),
{
    proof {
        reveal_with_fuel(pow10, 19);
        reveal_strlit(".");
    }
    assert(pow10(SCALE_DIGITS as nat) == FIXED_ONE);
    let mut out = String::new();
    push_whole(&mut out, v / FIXED_ONE);
    out.append(".");
    push_places(&mut out, v % FIXED_ONE, SCALE_DIGITS);
    assert(out@ =~= render_fixed(v));
    out
}

fn is_digit_char(c: char) -> (r: bool)
    ensures
        r == is_digit(c),
{
    '0' <= c && c <= '9'
}

fn digit_of(c: char) -> (r: u128)
    requires
        is_digit(c),
    ensures
        r == digit_value(c),
        r < 10,
{
    ((c as u32) - ('0' as u32)) as u128
}

/// Encodes decimal text as an integer scaled by ten to the `SCALE_DIGITS`.
/// Places past the last kept one are dropped, never rounded.
pub fn encode_fixed(text: &str) -> (r: Result<u128, EncodeError>)
    ensures
        match r {
            Ok(v) => is_plain_decimal(text@) && v == fixed_value(text@),
            Err(EncodeError::NotDecimal) => !is_plain_decimal(text@),
            Err(EncodeError::Overflow) => is_plain_decimal(text@) && fixed_value(text@)
                > u128::MAX,
        },
{
    let ghost s = text@;
    let n = text.unicode_len();
    let mut p: usize = 0;
    while p < n && is_digit_char(text.get_char(p))
        invariant
            p <= n,
            n == s.len(),
            s == text@,
            all_digits(s.take(p as int)),
        decreases n - p,
    {
        proof {
            assert(s.take(p + 1)[p as int] == s[p as int]);
            assert forall|i: int| 0 <= i < p + 1 implies #[trigger] is_digit(s.take(p + 1)[i]) by {
                if i < p {
                    assert(s.take(p as int)[i] == s[i]);
                }
            }
        }
        p += 1;
    }
    proof {
        lemma_split_unique(s, p as int);
    }
    if p == 0 {
        return Err(EncodeError::NotDecimal);
    }
    let mut flen: usize = 0;
    if p < n {
        if text.get_char(p) != '.' || p + 1 >= n {
            return Err(EncodeError::NotDecimal);
        }
        let mut i: usize = p + 1;
        while i < n
            invariant
                p + 1 <= i <= n,
                n == s.len(),
                s == text@,
                forall|k: int| p + 1 <= k < i ==> is_digit(#[trigger] s[k]),
                forall|q: int| splits_at(s, q) ==> q == p,
            decreases n - i,
        {
            if !is_digit_char(text.get_char(i)) {
                proof {
                    if splits_at(s, p as int) {
                        assert(s.skip(p + 1)[i - p - 1] == s[i as int]);
                    }
                }
                return Err(EncodeError::NotDecimal);
            }
            i += 1;
        }
        flen = n - p - 1;
        assert(all_digits(s.skip(p + 1))) by {
            assert forall|k: int| 0 <= k < s.skip(p + 1).len() implies #[trigger] is_digit(
                s.skip(p + 1)[k],
            ) by {
                assert(s.skip(p + 1)[k] == s[p + 1 + k]);
            }
        }
    }
    assert(splits_at(s, p as int));
    let ghost f = fraction_of(s, p as int);
    let ghost d = scaled_digits(s);
    assert(point_of(s) == p);
    assert(f.len() == flen);
    assert(d.len() == p + SCALE_DIGITS);

    let mut acc: u128 = 0;
    let mut j: usize = 0;
    while j < p
        invariant
            j <= p <= n,
            n == s.len(),
            s == text@,
            d == scaled_digits(s),
            d.len() == p + SCALE_DIGITS,
            point_of(s) == p,
            is_plain_decimal(s),
            all_digits(s.take(p as int)),
            acc == digits_value(d.take(j as int)),
        decreases p - j,
    {
        let c = text.get_char(j);
        assert(d[j as int] == c);
        assert(s.take(p as int)[j as int] == c);
        let dv = digit_of(c);
        proof {
            lemma_digits_step(d, j as int);
        }
        match acc.checked_mul(10) {
            None => {
                proof {
                    lemma_prefix_le(d, j + 1);
                }
                return Err(EncodeError::Overflow);
            },
            Some(m) => match m.checked_add(dv) {
                None => {
                    proof {
                        lemma_prefix_le(d, j + 1);
                    }
                    return Err(EncodeError::Overflow);
                },
                Some(a) => {
                    acc = a;
                },
            },
        }
        j += 1;
    }

    let mut k: usize = 0;
    while k < SCALE_DIGITS
        invariant
            k <= SCALE_DIGITS,
            p < n ==> p + 1 + flen == n,
            p == n ==> flen == 0,
            n == s.len(),
            s == text@,
            f == fraction_of(s, p as int),
            f.len() == flen,
            d == scaled_digits(s),
            d.len() == p + SCALE_DIGITS,
            d == s.take(p as int) + fraction_window(f),
            is_plain_decimal(s),
            all_digits(f),
            acc == digits_value(d.take(p + k)),
        decreases SCALE_DIGITS - k,
    {
        let c = if k < flen {
            text.get_char(p + 1 + k)
        } else {
            '0'
        };
        assert(d[p + k] == c);
        proof {
            if k < flen {
                assert(f[k as int] == c);
            }
        }
        let dv = digit_of(c);
        proof {
            lemma_digits_step(d, p + k);
        }
        match acc.checked_mul(10) {
            None => {
                proof {
                    lemma_prefix_le(d, p + k + 1);
                }
                return Err(EncodeError::Overflow);
            },
            Some(m) => match m.checked_add(dv) {
                None => {
                    proof {
                        lemma_prefix_le(d, p + k + 1);
                    }
                    return Err(EncodeError::Overflow);
                },
                Some(a) => {
                    acc = a;
                },
            },
        }
        k += 1;
    }
    assert(d.take(p + SCALE_DIGITS) =~= d);
    Ok(acc)
}

} // verus!

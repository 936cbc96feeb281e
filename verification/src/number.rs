//! Decimal numbers: reading them from bytes and writing them to strings.

use crate::scan::{copy_range, find_from, first_index};
use vstd::prelude::*;
use vstd::string::StringExecFns;

verus! {

/// The sign `-`.
pub const MINUS: u8 = 45;

/// The sign `+`.
pub const PLUS: u8 = 43;

/// A decimal digit: `0` to `9`.
pub open spec fn is_digit(b: u8) -> bool {
    48 <= b && b <= 57
}

/// Every byte of `s` is a decimal digit.
pub open spec fn all_digits(s: Seq<u8>) -> bool {
    forall|i: int| 0 <= i < s.len() ==> is_digit(#[trigger] s[i])
}

/// The number that the decimal digits `s` write; zero for no digits.
pub open spec fn decimal_value(s: Seq<u8>) -> nat
    decreases s.len(),
{
    if s.len() == 0 {
        0
    } else {
        decimal_value(s.drop_last()) * 10 + (s.last() - 48) as nat
    }
}

/// `s` starts with a sign.
pub open spec fn has_sign(s: Seq<u8>) -> bool {
    s.len() > 0 && (s[0] == MINUS || s[0] == PLUS)
}

/// `s` starts with `-`.
pub open spec fn is_negative(s: Seq<u8>) -> bool {
    s.len() > 0 && s[0] == MINUS
}

/// `s` without its sign, if it has one.
pub open spec fn unsigned_part(s: Seq<u8>) -> Seq<u8> {
    if has_sign(s) {
        s.drop_first()
    } else {
        s
    }
}

/// The integer that `s` writes: an optional `+` or `-`, then one decimal
/// digit or more, and nothing else.
pub open spec fn signed_value(s: Seq<u8>) -> Option<int> {
    let d = unsigned_part(s);
    if d.len() == 0 || !all_digits(d) {
        None
    } else if is_negative(s) {
        Some(-(decimal_value(d) as int))
    } else {
        Some(decimal_value(d) as int)
    }
}

/// The integer that `s` writes, where it fits 32 bits with a sign.
pub open spec fn parse_i32(s: Seq<u8>) -> Option<i32> {
    match signed_value(s) {
        Some(v) => if i32::MIN <= v <= i32::MAX {
            Some(v as i32)
        } else {
            None
        },
        None => None,
    }
}

/// The integer that `s` writes, where `s` has no `-` and the integer fits
/// 32 bits without a sign.
pub open spec fn parse_u32(s: Seq<u8>) -> Option<u32> {
    match signed_value(s) {
        Some(v) => if !is_negative(s) && v <= u32::MAX {
            Some(v as u32)
        } else {
            None
        },
        None => None,
    }
}

/// More digits never write a smaller number.
pub proof fn lemma_value_grows(d: Seq<u8>, k: int)
    requires
        all_digits(d),
        0 <= k <= d.len(),
    ensures
        decimal_value(d.subrange(0, k)) <= decimal_value(d),
    decreases d.len() - k,
{
    if k == d.len() {
        assert(d.subrange(0, k) =~= d);
    } else {
        let e = d.drop_last();
        assert(is_digit(d[d.len() - 1]));
        assert forall|i: int| 0 <= i < e.len() implies is_digit(#[trigger] e[i]) by {
            assert(e[i] == d[i]);
        }
        lemma_value_grows(e, k);
        assert(e.subrange(0, k) =~= d.subrange(0, k));
    }
}

/// Reads the digits `s[from..]`: their value where there is at least one
/// byte, each is a digit, and the value is at most `limit`.
pub fn read_digits(s: &[u8], from: usize, limit: u64) -> (r: Option<u64>)
    requires
        from <= s@.len(),
        limit <= 0x1_0000_0000,
    ensures
        ({
            let d = s@.subrange(from as int, s@.len() as int);
            r == if d.len() > 0 && all_digits(d) && decimal_value(d) <= limit {
                Some(decimal_value(d) as u64)
            } else {
                None
            }
        }),
{
    let n: usize = s.len();
    let ghost d = s@.subrange(from as int, n as int);
    if from == n {
        return None;
    }
    let mut acc: u64 = 0;
    let mut i: usize = from;
    while i < n
        invariant
            n == s@.len(),
            from <= i <= n,
            d == s@.subrange(from as int, n as int),
            limit <= 0x1_0000_0000,
            acc <= limit,
            acc == decimal_value(d.subrange(0, i - from)),
            all_digits(d.subrange(0, i - from)),
        decreases n - i,
    {
        let b: u8 = s[i];
        let ghost prefix = d.subrange(0, i - from);
        let ghost next = d.subrange(0, i + 1 - from);
        proof {
            assert(next.drop_last() =~= prefix);
            assert(next.last() == b);
        }
        if b < 48 || b > 57 {
            proof {
                assert(d[i - from] == b);
            }
            return None;
        }
        let digit: u64 = (b - 48) as u64;
        let grown: u64 = acc * 10 + digit;
        proof {
            assert(grown == decimal_value(next));
            assert forall|k: int| 0 <= k < next.len() implies is_digit(#[trigger] next[k]) by {
                if k < prefix.len() {
                    assert(next[k] == prefix[k]);
                }
            }
        }
        if grown > limit {
            proof {
                if all_digits(d) {
                    lemma_value_grows(d, i + 1 - from);
                }
            }
            return None;
        }
        acc = grown;
        i += 1;
    }
    proof {
        assert(d.subrange(0, n - from) =~= d);
    }
    Some(acc)
}

/// Reads `s` as a 32-bit integer with a sign.
pub fn read_i32(s: &[u8]) -> (r: Option<i32>)
    ensures
        r == parse_i32(s@),
{
    let n: usize = s.len();
    if n == 0 {
        return None;
    }
    let first: u8 = s[0];
    proof {
        assert(s@.drop_first() =~= s@.subrange(1, n as int));
        assert(s@ =~= s@.subrange(0, n as int));
    }
    if first == MINUS {
        match read_digits(s, 1, 0x8000_0000) {
            Some(m) => {
                let v: i64 = -(m as i64);
                Some(v as i32)
            },
            None => None,
        }
    } else if first == PLUS {
        match read_digits(s, 1, 0x7fff_ffff) {
            Some(m) => Some(m as i32),
            None => None,
        }
    } else {
        match read_digits(s, 0, 0x7fff_ffff) {
            Some(m) => Some(m as i32),
            None => None,
        }
    }
}

/// Reads `s` as a 32-bit integer without a sign.
pub fn read_u32(s: &[u8]) -> (r: Option<u32>)
    ensures
        r == parse_u32(s@),
{
    let n: usize = s.len();
    if n == 0 {
        return None;
    }
    let first: u8 = s[0];
    proof {
        assert(s@.drop_first() =~= s@.subrange(1, n as int));
        assert(s@ =~= s@.subrange(0, n as int));
    }
    if first == PLUS {
        match read_digits(s, 1, 0xffff_ffff) {
            Some(m) => Some(m as u32),
            None => None,
        }
    } else {
        match read_digits(s, 0, 0xffff_ffff) {
            Some(m) => Some(m as u32),
            None => None,
        }
    }
}

/// The point that parts the whole of a number from its fraction: `.`.
pub const DOT: u8 = 46;

/// How many whole parts the fraction `0.digits` covers of something that
/// has `unit` parts. What is left of a part is not counted. The digits
/// are taken from the last to the first, each time a tenth of what there
/// is: `law_fraction_is_exact` shows that nothing is lost on the way.
pub open spec fn fraction_of(digits: Seq<u8>, unit: int) -> int
    decreases digits.len(),
{
    if digits.len() == 0 {
        0
    } else {
        ((digits[0] - 48) * unit + fraction_of(digits.drop_first(), unit)) / 10
    }
}

/// The digits of `body` before its point.
pub open spec fn whole_digits(body: Seq<u8>) -> Seq<u8> {
    body.subrange(0, first_index(body, DOT))
}

/// The digits of `body` behind its point; none where it has no point.
pub open spec fn fraction_digits(body: Seq<u8>) -> Seq<u8> {
    let p = first_index(body, DOT);
    if 0 <= p < body.len() {
        body.subrange(p + 1, body.len() as int)
    } else {
        Seq::empty()
    }
}

/// The number that `s` writes, counted in parts of which `unit` make one.
///
/// `s` is an optional `+` or `-`, then digits, then optionally a point
/// and further digits, with one digit at least. The whole of the number
/// is at most `limit`. What is left of a part is not counted: the result
/// is rounded towards zero.
pub open spec fn parse_scaled(s: Seq<u8>, unit: int, limit: int) -> Option<int> {
    let body = unsigned_part(s);
    let whole = whole_digits(body);
    let fraction = fraction_digits(body);
    if whole.len() + fraction.len() == 0 || !all_digits(whole) || !all_digits(fraction)
        || decimal_value(whole) > limit {
        None
    } else {
        let parts = decimal_value(whole) * unit + fraction_of(fraction, unit);
        if is_negative(s) {
            Some(-parts)
        } else {
            Some(parts)
        }
    }
}

/// Ten, `n` times with itself.
pub open spec fn power_of_ten(n: nat) -> int
    decreases n,
{
    if n == 0 {
        1
    } else {
        10 * power_of_ten((n - 1) as nat)
    }
}

/// The first digit of a number counts for as many tens as digits follow.
pub proof fn lemma_value_from_front(d: Seq<u8>)
    requires
        d.len() > 0,
        all_digits(d),
    ensures
        decimal_value(d) == (d[0] - 48) * power_of_ten((d.len() - 1) as nat) + decimal_value(
            d.drop_first(),
        ),
    decreases d.len(),
{
    let rest = d.drop_first();
    assert(is_digit(d[0]));
    assert(is_digit(d[d.len() - 1]));
    if d.len() == 1 {
        assert(d.drop_last() =~= Seq::<u8>::empty());
        assert(rest =~= Seq::<u8>::empty());
        assert(decimal_value(d.drop_last()) == 0);
        assert(decimal_value(rest) == 0);
        assert(d.last() == d[0]);
        assert(decimal_value(d) == d[0] - 48);
        assert(power_of_ten(0) == 1);
    } else {
        let init = d.drop_last();
        assert forall|i: int| 0 <= i < init.len() implies is_digit(#[trigger] init[i]) by {
            assert(init[i] == d[i]);
        }
        lemma_value_from_front(init);
        assert(init.drop_first() =~= rest.drop_last());
        assert(rest.last() == d.last());
        let a = d[0] - 48;
        let p = power_of_ten((init.len() - 1) as nat);
        let n = decimal_value(init.drop_first());
        let last = d.last() - 48;
        assert(init[0] == d[0]);
        assert(decimal_value(init) == a * p + n);
        assert(decimal_value(d) == decimal_value(init) * 10 + last);
        assert(decimal_value(rest) == n * 10 + last);
        assert(power_of_ten((d.len() - 1) as nat) == 10 * p);
        assert((a * p + n) * 10 + last == a * (10 * p) + (n * 10 + last)) by (nonlinear_arith);
    }
}

/// `fraction_of` is what it is meant to be: the number that the digits
/// write, times `unit`, by the power of ten that has as many zeros as
/// there are digits, with what is left of a part not counted.
pub proof fn law_fraction_is_exact(digits: Seq<u8>, unit: int)
    requires
        all_digits(digits),
        unit >= 0,
    ensures
        power_of_ten(digits.len()) > 0,
        fraction_of(digits, unit) == (decimal_value(digits) * unit) / power_of_ten(digits.len()),
    decreases digits.len(),
{
    if digits.len() > 0 {
        let rest = digits.drop_first();
        assert forall|i: int| 0 <= i < rest.len() implies is_digit(#[trigger] rest[i]) by {
            assert(rest[i] == digits[i + 1]);
        }
        law_fraction_is_exact(rest, unit);
        lemma_value_from_front(digits);
        assert(is_digit(digits[0]));
        let a = digits[0] - 48;
        let p = power_of_ten(rest.len());
        let n = decimal_value(rest) as int;
        let y = n * unit;
        let x = decimal_value(digits) * unit;
        assert(y >= 0) by (nonlinear_arith)
            requires
                y == n * unit,
                n >= 0,
                unit >= 0,
        ;
        assert(x == (a * unit) * p + y && x >= 0) by (nonlinear_arith)
            requires
                x == (a * p + n) * unit,
                y == n * unit,
                a >= 0,
                p > 0,
                n >= 0,
                unit >= 0,
        ;
        let q = y / p;
        let r = y % p;
        vstd::arithmetic::div_mod::lemma_fundamental_div_mod(y, p);
        assert(0 <= r < p) by (nonlinear_arith)
            requires
                r == y % p,
                p > 0,
        ;
        assert(x == (a * unit + q) * p + r) by (nonlinear_arith)
            requires
                x == (a * unit) * p + y,
                y == p * q + r,
        ;
        vstd::arithmetic::div_mod::lemma_fundamental_div_mod_converse(x, p, a * unit + q, r);
        assert(x / p == a * unit + q);
        vstd::arithmetic::div_mod::lemma_div_denominator(x, p, 10);
        assert(power_of_ten(digits.len()) == 10 * p);
        assert(p * 10 == 10 * p);
        assert((x / p) / 10 == x / (10 * p));
        assert(fraction_of(rest, unit) == q);
        assert(fraction_of(digits, unit) == (a * unit + q) / 10);
    } else {
        assert(decimal_value(digits) == 0);
        assert(power_of_ten(0) == 1);
        assert(decimal_value(digits) * unit == 0);
    }
}

/// A fraction covers less than the whole.
pub proof fn lemma_fraction_bounds(digits: Seq<u8>, unit: int)
    requires
        all_digits(digits),
        unit > 0,
    ensures
        0 <= fraction_of(digits, unit) < unit,
    decreases digits.len(),
{
    if digits.len() > 0 {
        let rest = digits.drop_first();
        assert forall|i: int| 0 <= i < rest.len() implies is_digit(#[trigger] rest[i]) by {
            assert(rest[i] == digits[i + 1]);
        }
        lemma_fraction_bounds(rest, unit);
        assert(is_digit(digits[0]));
        let d = digits[0] - 48;
        let r = fraction_of(rest, unit);
        assert(0 <= (d * unit + r) / 10 < unit) by (nonlinear_arith)
            requires
                0 <= d <= 9,
                0 <= r < unit,
        ;
    }
}

/// Reads the fraction `s[from..]`: the parts that it covers of `unit`,
/// where each byte is a digit. No byte gives no part.
pub fn read_fraction(s: &[u8], from: usize, unit: u64) -> (r: Option<u64>)
    requires
        from <= s@.len(),
        0 < unit <= 0x8000_0000,
    ensures
        r is Some <==> all_digits(s@.subrange(from as int, s@.len() as int)),
        r matches Some(parts) ==> parts == fraction_of(
            s@.subrange(from as int, s@.len() as int),
            unit as int,
        ) && parts < unit,
{
    let n: usize = s.len();
    let ghost d = s@.subrange(from as int, n as int);
    let mut acc: u64 = 0;
    let mut i: usize = n;
    assert(d.subrange(n - from, d.len() as int) =~= Seq::<u8>::empty());
    while i > from
        invariant
            n == s@.len(),
            from <= i <= n,
            d == s@.subrange(from as int, n as int),
            0 < unit <= 0x8000_0000,
            all_digits(d.subrange(i - from, d.len() as int)),
            acc == fraction_of(d.subrange(i - from, d.len() as int), unit as int),
            acc < unit,
        decreases i,
    {
        let b: u8 = s[i - 1];
        let ghost tail = d.subrange(i - from, d.len() as int);
        let ghost more = d.subrange(i - 1 - from, d.len() as int);
        proof {
            assert(more.drop_first() =~= tail);
            assert(more[0] == b);
            assert(d[i - 1 - from] == b);
        }
        if b < 48 || b > 57 {
            return None;
        }
        let digit: u64 = (b - 48) as u64;
        assert(digit * unit <= 9 * 0x8000_0000) by (nonlinear_arith)
            requires
                digit <= 9,
                unit <= 0x8000_0000,
        ;
        proof {
            assert forall|k: int| 0 <= k < more.len() implies is_digit(#[trigger] more[k]) by {
                if k > 0 {
                    assert(more[k] == tail[k - 1]);
                }
            }
            lemma_fraction_bounds(more, unit as int);
        }
        acc = (digit * unit + acc) / 10;
        i -= 1;
    }
    assert(d.subrange(0, d.len() as int) =~= d);
    Some(acc)
}

/// Reads `s` as a number counted in parts of which `unit` make one.
pub fn read_scaled(s: &[u8], unit: u64, limit: u64) -> (r: Option<i64>)
    requires
        0 < unit <= 0x8000_0000,
        limit <= 0x8000_0000,
    ensures
        r is Some <==> parse_scaled(s@, unit as int, limit as int) is Some,
        r matches Some(v) ==> parse_scaled(s@, unit as int, limit as int) == Some(v as int)
            && -(limit * unit + unit) < v < limit * unit + unit,
{
    let n: usize = s.len();
    let start: usize = if n > 0 && (s[0] == MINUS || s[0] == PLUS) {
        1
    } else {
        0
    };
    let negative: bool = n > 0 && s[0] == MINUS;
    let ghost body = unsigned_part(s@);
    proof {
        if n > 0 {
            assert(s@.drop_first() =~= s@.subrange(1, n as int));
        }
        assert(s@ =~= s@.subrange(0, n as int));
        assert(body == s@.subrange(start as int, n as int));
    }
    let point: usize = find_from(s, start, DOT);
    let digits: Vec<u8> = copy_range(s, start, point);
    proof {
        assert(first_index(body, DOT) == point - start);
        assert(whole_digits(body) =~= digits@);
        assert(digits@.subrange(0, digits@.len() as int) =~= digits@);
    }
    let behind: usize = if point < n {
        point + 1
    } else {
        n
    };
    proof {
        if point < n {
            assert(fraction_digits(body) =~= s@.subrange(behind as int, n as int));
        } else {
            assert(fraction_digits(body) =~= s@.subrange(behind as int, n as int));
        }
    }
    if digits.len() == 0 && behind == n {
        return None;
    }
    let whole: u64 = if digits.len() == 0 {
        0
    } else {
        match read_digits(digits.as_slice(), 0, limit) {
            Some(whole) => whole,
            None => {
                return None;
            },
        }
    };
    let parts: u64 = match read_fraction(s, behind, unit) {
        Some(parts) => parts,
        None => {
            return None;
        },
    };
    assert(whole * unit <= limit * unit <= 0x8000_0000 * 0x8000_0000) by (nonlinear_arith)
        requires
            whole <= limit,
            limit <= 0x8000_0000,
            unit <= 0x8000_0000,
    ;
    let size: u64 = whole * unit + parts;
    if negative {
        Some(-(size as i64))
    } else {
        Some(size as i64)
    }
}

/// The character of the digit `d`.
pub open spec fn digit_char(d: int) -> char {
    if d == 0 {
        '0'
    } else if d == 1 {
        '1'
    } else if d == 2 {
        '2'
    } else if d == 3 {
        '3'
    } else if d == 4 {
        '4'
    } else if d == 5 {
        '5'
    } else if d == 6 {
        '6'
    } else if d == 7 {
        '7'
    } else if d == 8 {
        '8'
    } else {
        '9'
    }
}

/// `n` in decimal digits, without leading zeros.
pub open spec fn decimal(n: nat) -> Seq<char>
    decreases n,
{
    if n < 10 {
        seq![digit_char(n as int)]
    } else {
        decimal(n / 10).push(digit_char((n % 10) as int))
    }
}

/// The digit `d` as a string.
fn digit_str(d: u32) -> (s: &'static str)
    requires
        d < 10,
    ensures
        s@ == seq![digit_char(d as int)],
{
    proof {
        reveal_strlit("0");
        reveal_strlit("1");
        reveal_strlit("2");
        reveal_strlit("3");
        reveal_strlit("4");
        reveal_strlit("5");
        reveal_strlit("6");
        reveal_strlit("7");
        reveal_strlit("8");
        reveal_strlit("9");
    }
    let s: &'static str = if d == 0 {
        "0"
    } else if d == 1 {
        "1"
    } else if d == 2 {
        "2"
    } else if d == 3 {
        "3"
    } else if d == 4 {
        "4"
    } else if d == 5 {
        "5"
    } else if d == 6 {
        "6"
    } else if d == 7 {
        "7"
    } else if d == 8 {
        "8"
    } else {
        "9"
    };
    assert(s@ =~= seq![digit_char(d as int)]);
    s
}

/// Writes `n` in decimal digits at the end of `out`.
pub fn push_decimal(out: &mut String, n: u32)
    ensures
        final(out)@ == old(out)@ + decimal(n as nat),
    decreases n,
{
    if n >= 10 {
        push_decimal(out, n / 10);
    }
    out.append(digit_str(n % 10));
    proof {
        if n >= 10 {
            assert(old(out)@ + decimal((n / 10) as nat) + seq![digit_char((n % 10) as int)] =~= old(
                out,
            )@ + decimal(n as nat));
        }
    }
}

} // verus!

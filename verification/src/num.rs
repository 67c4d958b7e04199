//! Decimal rendering and parsing of 64-bit signed integers, used for the
//! timestamp field of a log line. Parsing follows the standard integer
//! grammar: an optional `+` or `-` sign, then one or more decimal digits,
//! rejected when the value falls outside the `i64` range.

use vstd::prelude::*;

verus! {

pub open spec fn is_digit(c: char) -> bool {
    c == '0' || c == '1' || c == '2' || c == '3' || c == '4' || c == '5' || c == '6' || c == '7'
        || c == '8' || c == '9'
}

pub open spec fn digit_val(c: char) -> int {
    if c == '0' {
        0
    } else if c == '1' {
        1
    } else if c == '2' {
        2
    } else if c == '3' {
        3
    } else if c == '4' {
        4
    } else if c == '5' {
        5
    } else if c == '6' {
        6
    } else if c == '7' {
        7
    } else if c == '8' {
        8
    } else {
        9
    }
}

pub open spec fn digit_char(d: int) -> char {
    if d == 0 {
        '0'
    } else if d == 1 {
        '1'
    } else if d == 2 {
        '2'
    } else if d == 3 {
        '3'
    } else if d == 4 {
        '4'
    } else if d == 5 {
        '5'
    } else if d == 6 {
        '6'
    } else if d == 7 {
        '7'
    } else if d == 8 {
        '8'
    } else {
        '9'
    }
}

pub open spec fn all_digits(s: Seq<char>) -> bool {
    forall|i: int| 0 <= i < s.len() ==> is_digit(#[trigger] s[i])
}

/// Value of a digit string, most significant digit first.
pub open spec fn digits_val(s: Seq<char>) -> int
    decreases s.len(),
{
    if s.len() == 0 {
        0
    } else {
        digits_val(s.drop_last()) * 10 + digit_val(s.last())
    }
}

/// Canonical decimal digits of a non-negative integer, no sign, no
/// leading zero except for zero itself.
pub open spec fn dec_digits(n: int) -> Seq<char>
    decreases n,
{
    if n < 10 {
        seq![digit_char(n)]
    } else {
        dec_digits(n / 10).push(digit_char(n % 10))
    }
}

/// Canonical decimal rendering of a signed integer.
pub open spec fn dec_of(n: int) -> Seq<char> {
    if n < 0 {
        seq!['-'] + dec_digits(-n)
    } else {
        dec_digits(n)
    }
}

/// The value denoted by a decimal string under the standard signed
/// integer grammar, or `None` if the string does not match the grammar
/// or the value falls outside the `i64` range.
pub open spec fn parse_dec(s: Seq<char>) -> Option<int> {
    if s.len() == 0 {
        None
    } else {
        let neg = s[0] == '-';
        let signed = s[0] == '-' || s[0] == '+';
        let ds = if signed {
            s.skip(1)
        } else {
            s
        };
        if ds.len() == 0 || !all_digits(ds) {
            None
        } else {
            let v = if neg {
                -digits_val(ds)
            } else {
                digits_val(ds)
            };
            if i64::MIN <= v <= i64::MAX {
                Some(v)
            } else {
                None
            }
        }
    }
}

fn digit_char_exec(d: u64) -> (c: char)
    requires
        d < 10,
    ensures
        c == digit_char(d as int),
{
    if d == 0 {
        '0'
    } else if d == 1 {
        '1'
    } else if d == 2 {
        '2'
    } else if d == 3 {
        '3'
    } else if d == 4 {
        '4'
    } else if d == 5 {
        '5'
    } else if d == 6 {
        '6'
    } else if d == 7 {
        '7'
    } else if d == 8 {
        '8'
    } else {
        '9'
    }
}

fn digit_of(c: char) -> (r: Option<u64>)
    ensures
        r is Some <==> is_digit(c),
        r matches Some(d) ==> d < 10 && d as int == digit_val(c),
{
    match c {
        '0' => Some(0),
        '1' => Some(1),
        '2' => Some(2),
        '3' => Some(3),
        '4' => Some(4),
        '5' => Some(5),
        '6' => Some(6),
        '7' => Some(7),
        '8' => Some(8),
        '9' => Some(9),
        _ => None,
    }
}

fn render_u64(n: u64) -> (r: Vec<char>)
    ensures
        r@ == dec_digits(n as int),
    decreases n,
{
    if n < 10 {
        let mut r: Vec<char> = Vec::new();
        r.push(digit_char_exec(n));
        proof {
            assert(r@ =~= seq![digit_char(n as int)]);
        }
        r
    } else {
        let mut r = render_u64(n / 10);
        r.push(digit_char_exec(n % 10));
        r
    }
}

/// Renders a signed 64-bit integer in decimal.
pub fn render_i64(n: i64) -> (r: Vec<char>)
    ensures
        r@ == dec_of(n as int),
{
    if n >= 0 {
        render_u64(n as u64)
    } else {
        let mag: u64 = (-(n as i128)) as u64;
        assert(mag as int == -(n as int));
        let mut r: Vec<char> = Vec::new();
        r.push('-');
        let mut d = render_u64(mag);
        r.append(&mut d);
        proof {
            assert(r@ =~= seq!['-'] + dec_digits(-(n as int)));
        }
        r
    }
}

/// The value of a digit string is never negative.
pub proof fn lemma_digits_val_nonneg(s: Seq<char>)
    requires
        all_digits(s),
    ensures
        digits_val(s) >= 0,
    decreases s.len(),
{
    if s.len() > 0 {
        assert(all_digits(s.drop_last()));
        lemma_digits_val_nonneg(s.drop_last());
        assert(digit_val(s.last()) >= 0);
    }
}

/// A digit string is worth at least any of its prefixes.
pub proof fn lemma_digits_val_prefix(s: Seq<char>, k: int)
    requires
        all_digits(s),
        0 <= k <= s.len(),
    ensures
        digits_val(s) >= digits_val(s.take(k)),
    decreases s.len(),
{
    if k == s.len() {
        assert(s.take(k) =~= s);
    } else {
        assert(all_digits(s.drop_last()));
        lemma_digits_val_prefix(s.drop_last(), k);
        assert(s.drop_last().take(k) =~= s.take(k));
        lemma_digits_val_nonneg(s.drop_last());
        lemma_digits_val_nonneg(s);
        assert(digits_val(s) >= digits_val(s.drop_last()));
    }
}

/// The canonical digits of `n` are digits, at least one of them, and
/// denote `n` itself.
pub proof fn lemma_dec_digits_val(n: int)
    requires
        n >= 0,
    ensures
        digits_val(dec_digits(n)) == n,
        all_digits(dec_digits(n)),
        dec_digits(n).len() >= 1,
    decreases n,
{
    if n < 10 {
        let s = dec_digits(n);
        assert(s == seq![digit_char(n)]);
        assert(s.drop_last() =~= Seq::<char>::empty());
        assert(digits_val(Seq::<char>::empty()) == 0);
        assert(s.last() == digit_char(n));
        assert(digits_val(s) == digit_val(digit_char(n)));
    } else {
        lemma_dec_digits_val(n / 10);
        let s = dec_digits(n);
        let p = dec_digits(n / 10);
        assert(s == p.push(digit_char(n % 10)));
        assert(s.drop_last() =~= p);
        assert(s.last() == digit_char(n % 10));
        assert(0 <= n % 10 < 10);
        assert(digit_val(digit_char(n % 10)) == n % 10);
        assert(digits_val(s) == (n / 10) * 10 + n % 10);
        vstd::arithmetic::div_mod::lemma_fundamental_div_mod(n, 10);
        assert(forall|i: int|
            0 <= i < s.len() ==> is_digit(#[trigger] s[i])) by {
            assert(forall|i: int| 0 <= i < p.len() ==> is_digit(#[trigger] p[i]));
            assert(s[s.len() - 1] == digit_char(n % 10));
            assert(forall|i: int| 0 <= i < p.len() ==> s[i] == p[i]);
        }
    }
}

/// Parsing the canonical rendering of any `i64` value gives that value
/// back.
pub proof fn lemma_parse_of_render(n: int)
    requires
        i64::MIN <= n <= i64::MAX,
    ensures
        parse_dec(dec_of(n)) == Some(n),
{
    if n >= 0 {
        lemma_dec_digits_val(n);
        let s = dec_of(n);
        assert(s == dec_digits(n));
        assert(is_digit(s[0]));
        assert(s[0] != '-' && s[0] != '+');
        assert(parse_dec(s) == Some(n));
    } else {
        lemma_dec_digits_val(-n);
        let s = dec_of(n);
        assert(s == seq!['-'] + dec_digits(-n));
        assert(s[0] == '-');
        assert(s.skip(1) =~= dec_digits(-n));
        assert(parse_dec(s) == Some(n));
    }
}

/// Every character of a decimal rendering is a digit or the minus sign.
pub proof fn lemma_dec_of_chars(n: int)
    requires
        i64::MIN <= n <= i64::MAX,
    ensures
        forall|i: int|
            0 <= i < dec_of(n).len() ==> is_digit(#[trigger] dec_of(n)[i]) || dec_of(n)[i] == '-',
{
    if n >= 0 {
        lemma_dec_digits_val(n);
    } else {
        lemma_dec_digits_val(-n);
        let s = dec_of(n);
        let d = dec_digits(-n);
        assert(forall|i: int| 1 <= i < s.len() ==> s[i] == d[i - 1]);
    }
}

/// Parses a signed decimal integer from a character sequence, exactly as
/// `parse_dec` describes.
pub fn parse_i64(v: &Vec<char>) -> (r: Option<i64>)
    ensures
        r matches Some(x) ==> parse_dec(v@) == Some(x as int),
        r is None ==> parse_dec(v@) is None,
{
    if v.len() == 0 {
        return None;
    }
    let c0 = v[0];
    let neg = c0 == '-';
    let signed = neg || c0 == '+';
    let start: usize = if signed {
        1
    } else {
        0
    };
    if v.len() == start {
        return None;
    }
    let ghost ds = if signed {
        v@.skip(1)
    } else {
        v@
    };
    let limit: u64 = if neg {
        9223372036854775808
    } else {
        9223372036854775807
    };
    let mut acc: u64 = 0;
    let mut i: usize = start;
    while i < v.len()
        invariant
            start <= i <= v@.len(),
            start <= 1,
            v@.len() > start,
            neg == (v@[0] == '-'),
            signed == (v@[0] == '-' || v@[0] == '+'),
            start == if signed {
                1usize
            } else {
                0usize
            },
            ds == if signed {
                v@.skip(1)
            } else {
                v@
            },
            ds.len() == v@.len() - start,
            forall|k: int| 0 <= k < ds.len() ==> ds[k] == v@[k + start],
            neg ==> v@[0] == '-',
            limit == if neg {
                9223372036854775808u64
            } else {
                9223372036854775807u64
            },
            all_digits(ds.take(i - start)),
            acc as int == digits_val(ds.take(i - start)),
            acc <= limit,
        decreases v@.len() - i,
    {
        let ghost j = i - start;
        let d = match digit_of(v[i]) {
            Some(d) => d,
            None => {
                proof {
                    assert(ds[j] == v@[j + start]);
                    assert(!is_digit(ds[j]));
                    assert(!all_digits(ds));
                    assert(parse_dec(v@) is None);
                }
                return None;
            },
        };
        if acc > (limit - d) / 10 {
            proof {
                lemma_overflow_step(acc as int, d as int, limit as int);
                assert(ds.take(j + 1).drop_last() =~= ds.take(j));
                assert(digits_val(ds.take(j + 1)) == acc as int * 10 + d as int > limit as int);
                if all_digits(ds) {
                    lemma_digits_val_prefix(ds, j + 1);
                    assert(digits_val(ds) > limit as int);
                }
                assert(parse_dec(v@) is None);
            }
            return None;
        }
        proof {
            lemma_no_overflow_step(acc as int, d as int, limit as int);
            assert(ds.take(j + 1).drop_last() =~= ds.take(j));
            assert(ds.take(j + 1).last() == ds[j]);
        }
        acc = acc * 10 + d;
        i = i + 1;
    }
    proof {
        assert(ds.take(ds.len() as int) =~= ds);
        assert(all_digits(ds));
        assert(acc as int == digits_val(ds));
    }
    if neg {
        if acc == 9223372036854775808 {
            assert(parse_dec(v@) == Some(i64::MIN as int));
            Some(i64::MIN)
        } else {
            let x = -(acc as i64);
            assert(parse_dec(v@) == Some(x as int));
            Some(x)
        }
    } else {
        let x = acc as i64;
        assert(parse_dec(v@) == Some(x as int));
        Some(x)
    }
}

proof fn lemma_overflow_step(acc: int, d: int, limit: int)
    requires
        acc >= 0,
        0 <= d < 10,
        limit >= 10,
        acc > (limit - d) / 10,
    ensures
        acc * 10 + d > limit,
{
    let q = (limit - d) / 10;
    vstd::arithmetic::div_mod::lemma_fundamental_div_mod(limit - d, 10);
    assert(limit - d == 10 * q + (limit - d) % 10);
    assert((limit - d) % 10 < 10);
    assert(acc >= q + 1);
    assert(acc * 10 >= (q + 1) * 10) by (nonlinear_arith)
        requires
            acc >= q + 1,
    ;
    assert((q + 1) * 10 == 10 * q + 10);
}

proof fn lemma_no_overflow_step(acc: int, d: int, limit: int)
    requires
        acc >= 0,
        0 <= d < 10,
        limit >= 10,
        acc <= (limit - d) / 10,
    ensures
        acc * 10 + d <= limit,
{
    let q = (limit - d) / 10;
    vstd::arithmetic::div_mod::lemma_fundamental_div_mod(limit - d, 10);
    assert((limit - d) % 10 >= 0);
    assert(limit - d >= 10 * q);
    assert(acc * 10 <= q * 10) by (nonlinear_arith)
        requires
            acc <= q,
    ;
}

} // verus!

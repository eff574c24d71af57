//! Character-level helpers shared by the note-name and label code: reading the
//! characters of a `&str`, decimal formatting and decimal parsing.

use vstd::prelude::*;

verus! {

/// `String::push` appends one character to the end of the string.
pub assume_specification[ String::push ](s: &mut String, ch: char)
    ensures
        final(s)@ == old(s)@.push(ch),
;

/// The characters of `s`, in order.
pub fn chars_of(s: &str) -> (r: Vec<char>)
    ensures
        r@ == s@,
{
    let n = s.unicode_len();
    let mut r: Vec<char> = Vec::new();
    let mut i: usize = 0;
    while i < n
        invariant
            n == s@.len(),
            i <= n,
            r@ == s@.subrange(0, i as int),
        decreases n - i,
    {
        let c = s.get_char(i);
        r.push(c);
        i = i + 1;
    }
    r
}

/// The ASCII digit character for `d` (`0 <= d < 10`).
pub open spec fn digit_char(d: int) -> char {
    (('0' as int) + d) as char
}

/// Decimal digits of a natural number, most significant first, no leading zeros.
pub open spec fn nat_digits(n: nat) -> Seq<char>
    decreases n,
{
    if n < 10 {
        seq![digit_char(n as int)]
    } else {
        nat_digits(n / 10).push(digit_char((n % 10) as int))
    }
}

/// Decimal rendering of an integer, with a leading `-` for negative values.
pub open spec fn int_decimal(v: int) -> Seq<char> {
    if v < 0 {
        seq!['-'] + nat_digits((-v) as nat)
    } else {
        nat_digits(v as nat)
    }
}

/// Appends the decimal digits of `n` to `s`.
pub fn push_nat_digits(s: &mut String, n: u64)
    ensures
        final(s)@ == old(s)@ + nat_digits(n as nat),
    decreases n,
{
    if n >= 10 {
        push_nat_digits(s, n / 10);
    }
    let d = (n % 10) as u8;
    s.push((48u8 + d) as char);
    assert(((48u8 + d) as char) == digit_char((n % 10) as int));
}

/// Appends the decimal rendering of `v` (with a `-` sign when negative) to `s`.
pub fn push_i64_decimal(s: &mut String, v: i64)
    requires
        v > i64::MIN,
    ensures
        final(s)@ == old(s)@ + int_decimal(v as int),
{
    if v < 0 {
        s.push('-');
        push_nat_digits(s, (-v) as u64);
    } else {
        push_nat_digits(s, v as u64);
    }
}


/// An ASCII decimal digit.
pub open spec fn is_digit(c: char) -> bool {
    '0' <= c <= '9'
}

/// Every character is an ASCII decimal digit.
pub open spec fn all_digits(s: Seq<char>) -> bool {
    forall|i: int| 0 <= i < s.len() ==> is_digit(#[trigger] s[i])
}

/// The number an all-digit sequence denotes in base ten.
pub open spec fn digits_value(s: Seq<char>) -> int
    decreases s.len(),
{
    if s.len() == 0 {
        0
    } else {
        10 * digits_value(s.drop_last()) + (s.last() as int - '0' as int)
    }
}

/// What `str::parse::<i32>` accepts: an optional `+` or `-`, then one or more
/// ASCII digits, denoting a value that fits in an `i32`.
pub open spec fn parse_i32_spec(s: Seq<char>) -> Option<int> {
    let neg = s.len() > 0 && s[0] == '-';
    let body = if s.len() > 0 && (s[0] == '-' || s[0] == '+') {
        s.skip(1)
    } else {
        s
    };
    if body.len() == 0 || !all_digits(body) {
        None
    } else {
        let v = if neg {
            -digits_value(body)
        } else {
            digits_value(body)
        };
        if i32::MIN <= v <= i32::MAX {
            Some(v)
        } else {
            None
        }
    }
}

pub proof fn lemma_digits_value_nonneg(s: Seq<char>)
    requires
        all_digits(s),
    ensures
        digits_value(s) >= 0,
    decreases s.len(),
{
    if s.len() > 0 {
        lemma_digits_value_nonneg(s.drop_last());
        assert(is_digit(s[s.len() - 1]));
    }
}

/// A prefix of a digit string never denotes a larger number than the whole.
pub proof fn lemma_digits_value_prefix(s: Seq<char>, k: int)
    requires
        all_digits(s),
        0 <= k <= s.len(),
    ensures
        digits_value(s.take(k)) <= digits_value(s),
    decreases s.len(),
{
    if k < s.len() {
        let t = s.drop_last();
        assert(t.take(k) =~= s.take(k));
        lemma_digits_value_prefix(t, k);
        lemma_digits_value_nonneg(t);
        assert(is_digit(s[s.len() - 1]));
    } else {
        assert(s.take(k) =~= s);
    }
}

/// Parses `cs[start..]` as `str::parse::<i32>` does.
pub fn parse_i32_from(cs: &Vec<char>, start: usize) -> (r: Option<i32>)
    requires
        start <= cs@.len(),
    ensures
        match r {
            Some(v) => parse_i32_spec(cs@.skip(start as int)) == Some(v as int),
            None => parse_i32_spec(cs@.skip(start as int)) is None,
        },
{
    let ghost s = cs@.skip(start as int);
    let n = cs.len();
    let mut i = start;
    let mut neg = false;
    if i < n && (cs[i] == '-' || cs[i] == '+') {
        neg = cs[i] == '-';
        i = i + 1;
    }
    let ghost body = cs@.skip(i as int);
    assert(body =~= (if s.len() > 0 && (s[0] == '-' || s[0] == '+') { s.skip(1) } else { s }));
    if i == n {
        return None;
    }
    let body_start = i;
    let mut acc: i64 = 0;
    while i < n
        invariant
            body_start <= i <= n,
            n == cs@.len(),
            body == cs@.skip(body_start as int),
            s == cs@.skip(start as int),
            body == (if s.len() > 0 && (s[0] == '-' || s[0] == '+') { s.skip(1) } else { s }),
            neg == (s.len() > 0 && s[0] == '-'),
            all_digits(body.take(i - body_start)),
            acc == digits_value(body.take(i - body_start)),
            0 <= acc <= 2147483648,
        decreases n - i,
    {
        let c = cs[i];
        if !('0' <= c && c <= '9') {
            assert(body[i - body_start] == c);
            return None;
        }
        let d = (c as u32 - '0' as u32) as i64;
        let next = acc * 10 + d;
        let ghost k = (i - body_start) as int;
        assert(body.take(k + 1).drop_last() =~= body.take(k));
        assert(body.take(k + 1).last() == c);
        assert(all_digits(body.take(k + 1))) by {
            assert forall|j: int| 0 <= j < k + 1 implies is_digit(#[trigger] body.take(k + 1)[j]) by {
                if j < k {
                    assert(body.take(k + 1)[j] == body.take(k)[j]);
                }
            }
        }
        if next > 2147483648 {
            proof {
                if all_digits(body) {
                    lemma_digits_value_prefix(body, k + 1);
                }
            }
            return None;
        }
        acc = next;
        i = i + 1;
    }
    assert(body.take(n - body_start) =~= body);
    if neg {
        Some((-acc) as i32)
    } else if acc > 2147483647 {
        None
    } else {
        Some(acc as i32)
    }
}

pub proof fn lemma_nat_digits_shape(n: nat)
    ensures
        all_digits(nat_digits(n)),
        digits_value(nat_digits(n)) == n,
        nat_digits(n).len() >= 1,
    decreases n,
{
    if n < 10 {
        assert(digit_char(n as int) as int == '0' as int + n);
        assert(nat_digits(n).drop_last() =~= Seq::<char>::empty());
        assert(digits_value(Seq::<char>::empty()) == 0);
        assert(digits_value(nat_digits(n)) == 10 * digits_value(nat_digits(n).drop_last()) + (nat_digits(n).last() as int - '0' as int));
    }
    if n >= 10 {
        lemma_nat_digits_shape(n / 10);
        let s = nat_digits(n);
        assert(s.drop_last() =~= nat_digits(n / 10));
        let d = (n % 10) as int;
        assert(s.last() == digit_char(d));
        assert(digit_char(d) as int == '0' as int + d);
        assert(digits_value(s) == 10 * digits_value(s.drop_last()) + (s.last() as int - '0' as int));
        assert forall|i: int| 0 <= i < s.len() implies is_digit(#[trigger] s[i]) by {
            if i < s.len() - 1 {
                assert(s[i] == nat_digits(n / 10)[i]);
            }
        }
    }
}

/// Decimal rendering and `parse::<i32>` are inverse on the `i32` range.
pub proof fn lemma_parse_int_decimal(v: int)
    requires
        i32::MIN <= v <= i32::MAX,
    ensures
        parse_i32_spec(int_decimal(v)) == Some(v),
        int_decimal(v).len() >= 1,
        is_ascii_int_decimal(v),
{
    if v < 0 {
        lemma_nat_digits_shape((-v) as nat);
        let s = int_decimal(v);
        assert(s.skip(1) =~= nat_digits((-v) as nat));
    } else {
        lemma_nat_digits_shape(v as nat);
        let s = nat_digits(v as nat);
        assert(is_digit(s[0]));
    }
    lemma_int_decimal_ascii(v);
}

/// The decimal rendering uses only `-` and ASCII digits.
pub open spec fn is_ascii_int_decimal(v: int) -> bool {
    forall|i: int| 0 <= i < int_decimal(v).len() ==> (#[trigger] int_decimal(v)[i] == '-' || is_digit(int_decimal(v)[i]))
}

pub proof fn lemma_int_decimal_ascii(v: int)
    ensures
        is_ascii_int_decimal(v),
        v >= 0 ==> is_digit(int_decimal(v)[0]),
        v < 0 ==> int_decimal(v)[0] == '-',
{
    if v < 0 {
        lemma_nat_digits_shape((-v) as nat);
        let s = int_decimal(v);
        assert forall|i: int| 0 <= i < s.len() implies (#[trigger] s[i] == '-' || is_digit(s[i])) by {
            if i > 0 {
                assert(s[i] == nat_digits((-v) as nat)[i - 1]);
            }
        }
    } else {
        lemma_nat_digits_shape(v as nat);
    }
}

} // verus!

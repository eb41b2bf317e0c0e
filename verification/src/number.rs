//! Decimal integers as `str::parse` reads them: an optional sign followed
//! by one or more ASCII digits, with no other character and no overflow;
//! and the decimal text of an integer, as `format!` writes it.
use vstd::prelude::*;

verus! {

/// An ASCII decimal digit.
pub open spec fn is_digit(c: char) -> bool {
    '0' <= c && c <= '9'
}

/// One or more ASCII decimal digits and nothing else.
pub open spec fn all_digits(s: Seq<char>) -> bool {
    s.len() > 0 && forall|i: int| 0 <= i < s.len() ==> #[trigger] is_digit(s[i])
}

/// The number that a string of digits writes in base 10.
pub open spec fn decimal_value(s: Seq<char>) -> nat
    decreases s.len(),
{
    if s.len() == 0 {
        0
    } else {
        decimal_value(s.drop_last()) * 10 + (s.last() as nat - '0' as nat) as nat
    }
}

/// What `s.parse::<u64>()` returns: `Some` of the value of the digits after an
/// optional `+`, where they are all digits and the value fits in a `u64`.
pub open spec fn spec_parse_u64(s: Seq<char>) -> Option<u64> {
    let digits = if s.len() > 0 && s[0] == '+' {
        s.drop_first()
    } else {
        s
    };
    if all_digits(digits) && decimal_value(digits) <= u64::MAX {
        Some(decimal_value(digits) as u64)
    } else {
        None
    }
}

/// What `s.parse::<i32>()` returns: `Some` of the value of the digits after an
/// optional `+` or `-`, where they are all digits and the signed value fits in an `i32`.
pub open spec fn spec_parse_i32(s: Seq<char>) -> Option<i32> {
    if s.len() > 0 && s[0] == '-' {
        let digits = s.drop_first();
        if all_digits(digits) && decimal_value(digits) <= 0x8000_0000 {
            Some((-decimal_value(digits)) as i32)
        } else {
            None
        }
    } else {
        let digits = if s.len() > 0 && s[0] == '+' {
            s.drop_first()
        } else {
            s
        };
        if all_digits(digits) && decimal_value(digits) <= i32::MAX {
            Some(decimal_value(digits) as i32)
        } else {
            None
        }
    }
}

/// `u64` reading takes exactly an optional `+` followed by one or more
/// digits whose value fits: anything read has only digits after a possible
/// leading `+`; digit strings within range read as their value, with or
/// without the `+`; digit strings out of range are refused.
pub proof fn law_u64_reading(s: Seq<char>)
    ensures
        spec_parse_u64(s) is Some ==> s.len() > 0 && forall|i: int|
            0 <= i < s.len() ==> is_digit(#[trigger] s[i]) || (i == 0 && s[i] == '+'),
        all_digits(s) && decimal_value(s) <= u64::MAX ==> spec_parse_u64(s) == Some(
            decimal_value(s) as u64,
        ) && spec_parse_u64(seq!['+'] + s) == Some(decimal_value(s) as u64),
        all_digits(s) && decimal_value(s) > u64::MAX ==> spec_parse_u64(s) is None,
{
    assert((seq!['+'] + s).drop_first() =~= s);
    assert((seq!['+'] + s)[0] == '+');
    if all_digits(s) {
        assert(is_digit(s[0]));
    }
    if spec_parse_u64(s) is Some && s.len() > 0 && s[0] == '+' {
        assert forall|i: int| 0 < i < s.len() implies is_digit(#[trigger] s[i]) by {
            assert(s.drop_first()[i - 1] == s[i]);
        }
    }
}

/// `i32` reading takes exactly an optional `+` or `-` followed by one or
/// more digits whose signed value fits, and gives that signed value.
pub proof fn law_i32_reading(s: Seq<char>)
    ensures
        spec_parse_i32(s) is Some ==> s.len() > 0 && forall|i: int|
            0 <= i < s.len() ==> is_digit(#[trigger] s[i]) || (i == 0 && (s[i] == '+' || s[i]
                == '-')),
        all_digits(s) && decimal_value(s) <= i32::MAX ==> spec_parse_i32(s) == Some(
            decimal_value(s) as i32,
        ) && spec_parse_i32(seq!['+'] + s) == Some(decimal_value(s) as i32),
        all_digits(s) && decimal_value(s) <= 0x8000_0000 ==> spec_parse_i32(seq!['-'] + s) == Some(
            (-decimal_value(s)) as i32,
        ),
        all_digits(s) && decimal_value(s) > i32::MAX ==> spec_parse_i32(s) is None,
        all_digits(s) && decimal_value(s) > 0x8000_0000 ==> spec_parse_i32(seq!['-'] + s) is None,
{
    assert((seq!['+'] + s).drop_first() =~= s);
    assert((seq!['-'] + s).drop_first() =~= s);
    assert((seq!['+'] + s)[0] == '+');
    assert((seq!['-'] + s)[0] == '-');
    if all_digits(s) {
        assert(is_digit(s[0]));
    }
    if spec_parse_i32(s) is Some && s.len() > 0 && (s[0] == '+' || s[0] == '-') {
        assert forall|i: int| 0 < i < s.len() implies is_digit(#[trigger] s[i]) by {
            assert(s.drop_first()[i - 1] == s[i]);
        }
    }
}

/// Appending digits never makes the value smaller.
proof fn lemma_prefix_value_le(t: Seq<char>, k: int)
    requires
        0 <= k <= t.len(),
    ensures
        decimal_value(t.take(k)) <= decimal_value(t),
    decreases t.len(),
{
    if k < t.len() {
        assert(t.drop_last().take(k) =~= t.take(k));
        lemma_prefix_value_le(t.drop_last(), k);
    } else {
        assert(t.take(k) =~= t);
    }
}

/// Reads the digits of `s` from character `start` to the end. Returns their
/// value where they are one or more digits whose value is at most `limit`.
fn digits_up_to(s: &str, start: usize, limit: u64) -> (r: Option<u64>)
    requires
        start <= s@.len(),
    ensures
        r == (if all_digits(s@.skip(start as int)) && decimal_value(s@.skip(start as int)) <= limit {
            Some(decimal_value(s@.skip(start as int)) as u64)
        } else {
            None
        }),
{
    let len = s.unicode_len();
    let ghost t = s@.skip(start as int);
    let mut v: u64 = 0;
    let mut i = start;
    while i < len
        invariant
            start <= i <= len,
            len == s@.len(),
            t == s@.skip(start as int),
            v as nat == decimal_value(t.take(i - start)),
            v <= limit,
            forall|j: int| 0 <= j < i - start ==> #[trigger] is_digit(t[j]),
        decreases len - i,
    {
        let c = s.get_char(i);
        assert(c == t[i - start]);
        if c < '0' || c > '9' {
            assert(!is_digit(t[i - start]));
            return None;
        }
        let d = (c as u32 - '0' as u32) as u64;
        assert(t.take(i + 1 - start).drop_last() =~= t.take(i - start));
        assert(t.take(i + 1 - start).last() == c);
        let ghost next: nat = decimal_value(t.take(i + 1 - start));
        assert(next == v * 10 + d);
        if d > limit || v > (limit - d) / 10 {
            proof {
                if d <= limit {
                    assert(v * 10 + d > limit) by (nonlinear_arith)
                        requires
                            v > (limit - d) / 10,
                            d <= limit,
                    {
                    }
                }
                if all_digits(t) {
                    lemma_prefix_value_le(t, i + 1 - start);
                }
            }
            return None;
        }
        assert(v * 10 + d <= limit) by (nonlinear_arith)
            requires
                v <= (limit - d) / 10,
                d <= limit,
        {
        }
        v = v * 10 + d;
        i = i + 1;
    }
    assert(t.take(i - start) =~= t);
    if i == start {
        return None;
    }
    Some(v)
}

/// Reads a `u64` as `s.parse::<u64>()` does; `None` where that gives an error.
pub fn parse_u64(s: &str) -> (r: Option<u64>)
    ensures
        r == spec_parse_u64(s@),
{
    let len = s.unicode_len();
    let start: usize = if len > 0 && s.get_char(0) == '+' {
        1
    } else {
        0
    };
    assert(s@.skip(0) =~= s@);
    assert(s@.skip(1) =~= s@.drop_first());
    digits_up_to(s, start, u64::MAX)
}

/// Reads an `i32` as `s.parse::<i32>()` does; `None` where that gives an error.
pub fn parse_i32(s: &str) -> (r: Option<i32>)
    ensures
        r == spec_parse_i32(s@),
{
    let len = s.unicode_len();
    assert(s@.skip(0) =~= s@);
    assert(s@.skip(1) =~= s@.drop_first());
    if len > 0 && s.get_char(0) == '-' {
        match digits_up_to(s, 1, 0x8000_0000) {
            Some(v) => Some((0 - (v as i64)) as i32),
            None => None,
        }
    } else {
        let start: usize = if len > 0 && s.get_char(0) == '+' {
            1
        } else {
            0
        };
        match digits_up_to(s, start, 0x7fff_ffff) {
            Some(v) => Some(v as i32),
            None => None,
        }
    }
}

/// The ASCII character of the decimal digit `d`.
pub open spec fn digit_char(d: int) -> char {
    ('0' as int + d) as char
}

/// The decimal text of `n`, without leading zeros (`0` is `"0"`).
pub open spec fn decimal_digits(n: nat) -> Seq<char>
    decreases n,
{
    if n < 10 {
        seq![digit_char(n as int)]
    } else {
        decimal_digits(n / 10).push(digit_char((n % 10) as int))
    }
}

/// The decimal text of `n`, with a `-` before it where it is negative.
pub open spec fn signed_decimal(n: int) -> Seq<char> {
    if n < 0 {
        seq!['-'] + decimal_digits((-n) as nat)
    } else {
        decimal_digits(n as nat)
    }
}

/// The decimal text of a number is digits that read back as the number,
/// with no leading zero: `0` is written `0`, and any other number starts
/// with a digit other than `0`.
pub proof fn lemma_decimal_digits(n: nat)
    ensures
        all_digits(decimal_digits(n)),
        decimal_value(decimal_digits(n)) == n,
        n == 0 ==> decimal_digits(n) == seq!['0'],
        n > 0 ==> decimal_digits(n)[0] != '0',
    decreases n,
{
    let s = decimal_digits(n);
    let d = (n % 10) as int;
    assert(digit_char(d) as int == 48 + d);
    if n == 0 {
        assert(digit_char(0) == '0');
    }
    if n < 10 {
        assert(s.drop_last() =~= Seq::<char>::empty());
        assert(s.last() == digit_char(d));
        assert(decimal_value(s.drop_last()) == 0);
        assert(decimal_value(s) == decimal_value(s.drop_last()) * 10 + (s.last() as nat - '0' as nat) as nat);
        assert(n == d);
    } else {
        lemma_decimal_digits(n / 10);
        assert(s[0] == decimal_digits(n / 10)[0]);
        assert(s.last() == digit_char(d));
        assert(s.drop_last() =~= decimal_digits(n / 10));
        assert(decimal_value(s) == decimal_value(s.drop_last()) * 10 + (s.last() as nat - '0' as nat) as nat);
        assert(decimal_value(s) == (n / 10) * 10 + d);
        assert(s.drop_last() =~= decimal_digits(n / 10));
        assert forall|i: int| 0 <= i < s.len() implies #[trigger] is_digit(s[i]) by {
            if i < s.len() - 1 {
                assert(s[i] == decimal_digits(n / 10)[i]);
            }
        }
    }
}

/// Appends the decimal text of `n` to `out`, as `{}` in `format!` writes a `u64`.
pub fn push_decimal(out: &mut String, n: u64)
    ensures
        final(out)@ == old(out)@ + decimal_digits(n as nat),
    decreases n,
{
    let ghost before = out@;
    if n >= 10 {
        push_decimal(out, n / 10);
    }
    let d = (n % 10) as u8;
    crate::text::push_char(out, (d + 48) as char);
    assert(out@ =~= before + decimal_digits(n as nat));
}

/// Appends the decimal text of `n` to `out`, as `{}` in `format!` writes an `i32`.
pub fn push_signed_decimal(out: &mut String, n: i32)
    ensures
        final(out)@ == old(out)@ + signed_decimal(n as int),
{
    let ghost before = out@;
    if n < 0 {
        crate::text::push_char(out, '-');
        push_decimal(out, (0 - (n as i64)) as u64);
        assert(out@ =~= before + signed_decimal(n as int));
    } else {
        push_decimal(out, n as u64);
    }
}

} // verus!

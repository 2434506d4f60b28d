//! Decimal text of 32-bit signed integers, as ASCII bytes.
use vstd::prelude::*;

verus! {

/// ASCII code of the digit `d` (0 to 9).
pub open spec fn digit_byte(d: nat) -> u8 {
    (d + 48) as u8
}

/// Whether `b` is an ASCII decimal digit.
pub open spec fn is_digit(b: u8) -> bool {
    48 <= b <= 57
}

/// Decimal digits of `n`, most significant first, with no leading zero.
pub open spec fn nat_text(n: nat) -> Seq<u8>
    decreases n,
{
    if n < 10 {
        seq![digit_byte(n)]
    } else {
        nat_text(n / 10).push(digit_byte(n % 10))
    }
}

/// Text of `v`: a minus sign for negative values, then the digits of its magnitude.
pub open spec fn i32_text(v: i32) -> Seq<u8> {
    if v < 0 {
        seq![45u8] + nat_text((-v) as nat)
    } else {
        nat_text(v as nat)
    }
}

/// Value of a sequence of digits, read most significant first.
pub open spec fn digits_value(s: Seq<u8>) -> nat
    decreases s.len(),
{
    if s.len() == 0 {
        0
    } else {
        digits_value(s.drop_last()) * 10 + (s.last() - 48) as nat
    }
}

pub open spec fn all_digits(s: Seq<u8>) -> bool {
    forall|i: int| 0 <= i < s.len() ==> is_digit(#[trigger] s[i])
}

/// What parsing `s` as an `i32` gives: an optional sign, then at least one
/// digit and nothing else, with the value in range.
pub open spec fn parse_i32_spec(s: Seq<u8>) -> Option<i32> {
    if s.len() > 0 && (s[0] == 45u8 || s[0] == 43u8) {
        let body = s.drop_first();
        let neg = s[0] == 45u8;
        if body.len() > 0 && all_digits(body) {
            let v: int = if neg { -digits_value(body) } else { digits_value(body) as int };
            if i32::MIN <= v <= i32::MAX { Some(v as i32) } else { None }
        } else {
            None
        }
    } else if s.len() > 0 && all_digits(s) {
        let v: int = digits_value(s) as int;
        if v <= i32::MAX { Some(v as i32) } else { None }
    } else {
        None
    }
}

pub proof fn lemma_nat_text_digits(n: nat)
    ensures
        nat_text(n).len() > 0,
        all_digits(nat_text(n)),
        digits_value(nat_text(n)) == n,
    decreases n,
{
    if n >= 10 {
        lemma_nat_text_digits(n / 10);
        let t = nat_text(n / 10).push(digit_byte(n % 10));
        assert(t.drop_last() =~= nat_text(n / 10));
        assert(t.last() == digit_byte(n % 10));
        assert(digit_byte(n % 10) - 48 == n % 10);
        assert(digits_value(t) == digits_value(nat_text(n / 10)) * 10 + (t.last() - 48) as nat);
        assert((n / 10) * 10 + n % 10 == n);
        assert forall|i: int| 0 <= i < t.len() implies is_digit(#[trigger] t[i]) by {
            if i < t.len() - 1 {
                assert(t[i] == nat_text(n / 10)[i]);
            }
        }
        assert(digits_value(t) == n);
        assert(t == nat_text(n));
    } else {
        let t = nat_text(n);
        assert(t.drop_last() =~= Seq::<u8>::empty());
        assert(digits_value(t.drop_last()) == 0);
        assert(t.last() == digit_byte(n));
        assert(digit_byte(n) - 48 == n);
        assert(digits_value(t) == n);
    }
}

/// Parsing the text of a value gives the value back.
pub proof fn lemma_i32_text_parses(v: i32)
    ensures
        parse_i32_spec(i32_text(v)) == Some(v),
        i32_text(v).len() > 0,
        forall|i: int| 0 <= i < i32_text(v).len() ==> #[trigger] i32_text(v)[i] != 124u8,
{
    if v < 0 {
        let m = (-v) as nat;
        lemma_nat_text_digits(m);
        let s = i32_text(v);
        assert(s.drop_first() =~= nat_text(m));
        assert forall|i: int| 0 <= i < s.len() implies #[trigger] s[i] != 124u8 by {
            if i > 0 {
                assert(s[i] == nat_text(m)[i - 1]);
                assert(is_digit(nat_text(m)[i - 1]));
            }
        }
    } else {
        lemma_nat_text_digits(v as nat);
        let s = i32_text(v);
        assert(s[0] == nat_text(v as nat)[0]);
        assert(is_digit(s[0]));
        assert forall|i: int| 0 <= i < s.len() implies #[trigger] s[i] != 124u8 by {
            assert(is_digit(s[i]));
        }
    }
}

/// Appends the digits of `n` to `out`.
fn push_digits(n: u32, out: &mut Vec<u8>)
    ensures
        final(out)@ == old(out)@ + nat_text(n as nat),
    decreases n,
{
    if n >= 10 {
        push_digits(n / 10, out);
    }
    out.push(((n % 10) as u8) + 48);
    proof {
        if n >= 10 {
            assert(old(out)@ + nat_text(n as nat) =~= old(out)@ + nat_text((n / 10) as nat) + seq![digit_byte((n % 10) as nat)]);
        } else {
            assert(nat_text(n as nat) =~= seq![digit_byte(n as nat)]);
        }
    }
}

/// Appends the decimal text of `v` to `out`.
pub fn push_i32_text(v: i32, out: &mut Vec<u8>)
    ensures
        final(out)@ == old(out)@ + i32_text(v),
{
    if v < 0 {
        out.push(45u8);
        let m: u32 = if v == i32::MIN { 2147483648u32 } else { (-v) as u32 };
        push_digits(m, out);
        assert(old(out)@ + i32_text(v) =~= old(out)@.push(45u8) + nat_text(m as nat));
    } else {
        push_digits(v as u32, out);
    }
}

proof fn lemma_digits_value_prefix(s: Seq<u8>, i: int)
    requires
        0 <= i < s.len(),
    ensures
        digits_value(s.subrange(0, i + 1)) == digits_value(s.subrange(0, i)) * 10 + (s[i] - 48) as nat,
{
    assert(s.subrange(0, i + 1).drop_last() =~= s.subrange(0, i));
}

proof fn lemma_digits_value_grows(s: Seq<u8>, i: int, j: int)
    requires
        0 <= i <= j <= s.len(),
        all_digits(s),
    ensures
        digits_value(s.subrange(0, i)) <= digits_value(s.subrange(0, j)),
    decreases j - i,
{
    if i < j {
        lemma_digits_value_grows(s, i, j - 1);
        lemma_digits_value_prefix(s, j - 1);
        assert(is_digit(s[j - 1]));
    }
}

/// Parses `s` as an `i32`, as `str::parse::<i32>` does on ASCII text.
pub fn parse_i32(s: &[u8]) -> (r: Option<i32>)
    ensures
        r == parse_i32_spec(s@),
{
    let n = s.len();
    if n == 0 {
        return None;
    }
    let neg = s[0] == 45u8;
    let start: usize = if s[0] == 45u8 || s[0] == 43u8 { 1 } else { 0 };
    if start == n {
        return None;
    }
    let ghost body = s@.subrange(start as int, n as int);
    // the magnitude may reach 2^31 for a negative value
    let limit: u64 = if neg { 2147483648u64 } else { 2147483647u64 };
    let mut v: u64 = 0;
    let mut i: usize = start;
    while i < n
        invariant
            start <= i <= n,
            n == s.len(),
            start <= 1,
            neg == (s@[0] == 45u8),
            start == 1 <==> (s@[0] == 45u8 || s@[0] == 43u8),
            limit == if neg { 2147483648u64 } else { 2147483647u64 },
            body == s@.subrange(start as int, n as int),
            v == digits_value(body.subrange(0, i - start)),
            v <= limit,
            forall|k: int| 0 <= k < i - start ==> is_digit(#[trigger] body[k]),
        decreases n - i,
    {
        let b = s[i];
        if b < 48u8 || b > 57u8 {
            proof {
                assert(body[i - start] == s@[i as int]);
                assert(!all_digits(body));
                if start == 0 {
                    assert(body =~= s@);
                } else {
                    assert(body =~= s@.drop_first());
                }
            }
            return None;
        }
        proof {
            lemma_digits_value_prefix(body, i - start);
        }
        let next: u64 = v * 10 + ((b - 48u8) as u64);
        if next > limit {
            proof {
                if all_digits(body) {
                    lemma_digits_value_grows(body, i - start + 1, body.len() as int);
                    assert(body.subrange(0, body.len() as int) =~= body);
                }
                if start == 0 {
                    assert(body =~= s@);
                } else {
                    assert(body =~= s@.drop_first());
                }
            }
            return None;
        }
        v = next;
        i = i + 1;
    }
    proof {
        assert(body.subrange(0, n - start) =~= body);
        if start == 0 {
            assert(body =~= s@);
        } else {
            assert(body =~= s@.drop_first());
        }
    }
    if neg {
        if v == 2147483648u64 {
            Some(i32::MIN)
        } else {
            Some(-(v as i32))
        }
    } else {
        Some(v as i32)
    }
}

} // verus!

//! Decimal numbers as text: the reading of unsigned integers (with the
//! rules of `u64`'s `FromStr`) and their decimal writing.
use vstd::prelude::*;

verus! {

/// `c` is an ASCII decimal digit.
pub open spec fn is_digit(c: char) -> bool {
    '0' <= c && c <= '9'
}

/// The value of the ASCII digit `c`.
pub open spec fn digit_value(c: char) -> nat {
    ((c as int) - ('0' as int)) as nat
}

/// The character of the digit `d`.
pub open spec fn digit_char(d: nat) -> char {
    ((d + ('0' as int)) as u32) as char
}

/// Every character of `s` is a decimal digit.
pub open spec fn all_digits(s: Seq<char>) -> bool {
    forall|i: int| 0 <= i < s.len() ==> is_digit(#[trigger] s[i])
}

/// The number written by the digits `s` (most significant first).
pub open spec fn digits_value(s: Seq<char>) -> nat
    decreases s.len(),
{
    if s.len() == 0 {
        0
    } else {
        digits_value(s.drop_last()) * 10 + digit_value(s.last())
    }
}

/// The digits of `s` once an optional leading `+` is taken off, when a
/// digit follows it.
pub open spec fn unsigned_digits(s: Seq<char>) -> Seq<char> {
    if s.len() > 1 && s[0] == '+' {
        s.drop_first()
    } else {
        s
    }
}

/// What reading `s` as a `u64` gives: an optional `+` followed by at least
/// one decimal digit, whose value fits in 64 bits.
pub open spec fn parse_u64_spec(s: Seq<char>) -> Option<u64> {
    let d = unsigned_digits(s);
    if d.len() > 0 && all_digits(d) && digits_value(d) <= u64::MAX {
        Some(digits_value(d) as u64)
    } else {
        None
    }
}

/// The decimal writing of `n`, without leading zeros.
pub open spec fn decimal(n: nat) -> Seq<char>
    decreases n,
{
    if n < 10 {
        seq![digit_char(n)]
    } else {
        decimal(n / 10) + seq![digit_char(n % 10)]
    }
}

/// A longer run of digits is worth at least as much as its prefix.
pub proof fn lemma_digits_value_prefix(s: Seq<char>, k: int)
    requires
        0 <= k <= s.len(),
        all_digits(s),
    ensures
        digits_value(s.take(k)) <= digits_value(s),
    decreases s.len() - k,
{
    if k < s.len() {
        lemma_digits_value_prefix(s, k + 1);
        assert(s.take(k + 1).drop_last() =~= s.take(k));
    } else {
        assert(s.take(k) =~= s);
    }
}

/// Reads `s` as a `u64`, as `str::parse::<u64>` does.
pub fn parse_u64(s: &str) -> (r: Option<u64>)
    ensures
        r == parse_u64_spec(s@),
{
    let chars = crate::text::str_chars(s);
    let n = chars.len();
    let mut i: usize = 0;
    if n > 1 && chars[0] == '+' {
        i = 1;
    }
    let ghost d = unsigned_digits(s@);
    assert(d =~= chars@.skip(i as int));
    if i == n {
        return None;
    }
    let mut acc: u64 = 0;
    let mut k: usize = i;
    while k < n
        invariant
            n == chars.len(),
            chars@ == s@,
            i <= k <= n,
            d == chars@.skip(i as int),
            d == unsigned_digits(s@),
            all_digits(d.take(k - i)),
            acc as nat == digits_value(d.take(k - i)),
        decreases n - k,
    {
        let c = chars[k];
        if !('0' <= c && c <= '9') {
            assert(d[k - i] == chars@[k as int]);
            assert(!is_digit(d[k - i]));
            assert(!all_digits(d));
            return None;
        }
        let v = (c as u32 - '0' as u32) as u64;
        proof {
            assert(d.take(k - i + 1).drop_last() =~= d.take(k - i));
            assert(d.take(k - i + 1).last() == c);
            assert(all_digits(d.take(k - i + 1)));
        }
        if acc > (u64::MAX - v) / 10 {
            proof {
                assert(acc * 10 + v > u64::MAX) by (nonlinear_arith)
                    requires
                        acc > (u64::MAX - v) / 10,
                        v <= 9,
                ;
            }
            if all_digits_exec(&chars, k + 1) {
                proof {
                    assert forall|j: int| 0 <= j < d.len() implies is_digit(#[trigger] d[j]) by {
                        if j <= k - i {
                            assert(d.take(k - i + 1)[j] == d[j]);
                        } else {
                            assert(d[j] == chars@[j + i]);
                        }
                    }
                    lemma_digits_value_prefix(d, k - i + 1);
                }
            } else {
                proof {
                    let j = choose|j: int| k + 1 <= j < n && !is_digit(#[trigger] chars@[j]);
                    assert(d[j - i] == chars@[j]);
                }
            }
            return None;
        }
        proof {
            assert(acc * 10 + v <= u64::MAX) by (nonlinear_arith)
                requires
                    acc <= (u64::MAX - v) / 10,
                    v <= 9,
            ;
        }
        acc = acc * 10 + v;
        k = k + 1;
    }
    assert(d.take(n - i) =~= d);
    Some(acc)
}

/// Whether every character of `v` from index `from` on is a digit.
fn all_digits_exec(v: &Vec<char>, from: usize) -> (r: bool)
    requires
        from <= v.len(),
    ensures
        r <==> forall|j: int| from <= j < v.len() ==> is_digit(#[trigger] v@[j]),
{
    let mut j = from;
    while j < v.len()
        invariant
            from <= j <= v.len(),
            forall|q: int| from <= q < j ==> is_digit(#[trigger] v@[q]),
        decreases v.len() - j,
    {
        if !('0' <= v[j] && v[j] <= '9') {
            return false;
        }
        j = j + 1;
    }
    true
}

/// The character of the digit `d`.
pub fn digit_to_char(d: u64) -> (c: char)
    requires
        d < 10,
    ensures
        c == digit_char(d as nat),
{
    match d {
        0 => '0',
        1 => '1',
        2 => '2',
        3 => '3',
        4 => '4',
        5 => '5',
        6 => '6',
        7 => '7',
        8 => '8',
        _ => '9',
    }
}

/// Appends the decimal writing of `n` to `out`.
pub fn push_decimal(out: &mut Vec<char>, n: u64)
    ensures
        final(out)@ == old(out)@ + decimal(n as nat),
    decreases n,
{
    if n >= 10 {
        push_decimal(out, n / 10);
    }
    let c = digit_to_char(n % 10);
    out.push(c);
}

/// The decimal writing of a number is made of digits and worth the number.
pub proof fn lemma_decimal_digits(n: nat)
    ensures
        decimal(n).len() > 0,
        all_digits(decimal(n)),
        digits_value(decimal(n)) == n,
    decreases n,
{
    let d = (n % 10) as nat;
    assert(digit_value(digit_char(d)) == d);
    assert(is_digit(digit_char(d)));
    if n >= 10 {
        lemma_decimal_digits(n / 10);
        let s = decimal(n);
        assert(s.drop_last() =~= decimal(n / 10));
        assert(s.last() == digit_char(d));
        assert(digits_value(s) == digits_value(decimal(n / 10)) * 10 + d);
        assert((n / 10) * 10 + n % 10 == n) by (nonlinear_arith);
        assert forall|i: int| 0 <= i < s.len() implies is_digit(#[trigger] s[i]) by {
            if i < s.len() - 1 {
                assert(s[i] == decimal(n / 10)[i]);
            }
        }
    } else {
        let s = decimal(n);
        assert(s.drop_last() =~= Seq::<char>::empty());
        assert(digits_value(s) == digits_value(Seq::<char>::empty()) * 10 + d);
    }
}

/// Reading back the decimal writing of a number gives the number: a value
/// stored as its decimal text reads as the same value.
pub proof fn lemma_decimal_parses_back(n: u64)
    ensures
        parse_u64_spec(decimal(n as nat)) == Some(n),
{
    lemma_decimal_digits(n as nat);
    let s = decimal(n as nat);
    assert(is_digit(s[0]));
    assert(unsigned_digits(s) == s);
}

} // verus!

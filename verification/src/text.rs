//! Characters, tokens and decimal numerals: the text-level ground the
//! interpreter stands on.

use vstd::prelude::*;

verus! {

/// Relies on `String::push`: appends exactly one character to the string.
#[verifier::external_body]
pub fn push_char(s: &mut String, c: char)
    ensures
        final(s)@ == old(s)@.push(c),
{
    s.push(c);
}

/// Character-for-character string equality.
pub fn str_eq(a: &str, b: &str) -> (r: bool)
    ensures
        r == (a@ == b@),
{
    let la = a.unicode_len();
    let lb = b.unicode_len();
    if la != lb {
        return false;
    }
    let mut i: usize = 0;
    while i < la
        invariant
            la == a@.len(),
            la == b@.len(),
            i <= la,
            forall|j: int| 0 <= j < i ==> a@[j] == b@[j],
        decreases la - i,
    {
        if a.get_char(i) != b.get_char(i) {
            return false;
        }
        i = i + 1;
    }
    proof {
        assert(a@ =~= b@);
    }
    true
}

/// Whether `c` is a decimal digit.
pub open spec fn is_digit(c: char) -> bool {
    '0' <= c && c <= '9'
}

/// The value of a digit character.
pub open spec fn digit_val(c: char) -> int {
    c as int - '0' as int
}

/// The digit character for `d`, which must lie in `0 ..= 9`.
pub open spec fn digit_char(d: int) -> char {
    if d == 0 {
        '0'
    } else if d == 1 {
        '1'
    } else if d == 2 {
        '2'
    } else if d == 3 {
        '3'
    } else if d == 4 {
        '4'
    } else if d == 5 {
        '5'
    } else if d == 6 {
        '6'
    } else if d == 7 {
        '7'
    } else if d == 8 {
        '8'
    } else {
        '9'
    }
}

/// The value of a sequence of digit characters, most significant first.
pub open spec fn digits_val(s: Seq<char>) -> int
    decreases s.len(),
{
    if s.len() == 0 {
        0
    } else {
        digits_val(s.drop_last()) * 10 + digit_val(s.last())
    }
}

/// The decimal numeral for `n`, without sign and without leading zeros
/// (except for the single digit `0` itself).
pub open spec fn dec_text(n: nat) -> Seq<char>
    decreases n,
{
    if n < 10 {
        seq![digit_char(n as int)]
    } else {
        dec_text(n / 10).push(digit_char((n % 10) as int))
    }
}

/// The decimal rendering of a signed 32-bit integer, as `print` emits it.
pub open spec fn i32_text(v: i32) -> Seq<char> {
    if v < 0 {
        seq!['-'] + dec_text((-(v as int)) as nat)
    } else {
        dec_text(v as nat)
    }
}

/// Whether every character of `ds` is a decimal digit.
pub open spec fn all_digits(ds: Seq<char>) -> bool {
    forall|j: int| 0 <= j < ds.len() ==> is_digit(ds[j])
}

/// The integer a token denotes: an optional sign, then one or more digits,
/// with the value in `i32` range. Any other token denotes nothing.
pub open spec fn spec_parse_i32(s: Seq<char>) -> Option<i32> {
    let signed = s.len() > 0 && (s[0] == '-' || s[0] == '+');
    let ds = if signed {
        s.skip(1)
    } else {
        s
    };
    if ds.len() == 0 || !all_digits(ds) {
        None
    } else {
        let v = if signed && s[0] == '-' {
            -digits_val(ds)
        } else {
            digits_val(ds)
        };
        if i32::MIN <= v <= i32::MAX {
            Some(v as i32)
        } else {
            None
        }
    }
}

/// A digit sequence values at least its every prefix: appending digits never
/// shrinks the value.
proof fn lemma_digits_val_prefix(s: Seq<char>, i: int)
    requires
        0 <= i <= s.len(),
        forall|j: int| 0 <= j < s.len() ==> is_digit(s[j]),
    ensures
        digits_val(s.take(i)) <= digits_val(s),
        digits_val(s) >= 0,
    decreases s.len() - i,
{
    if i == s.len() {
        assert(s.take(i) =~= s);
        lemma_digits_val_nonneg(s);
    } else {
        lemma_digits_val_prefix(s, i + 1);
        lemma_digits_val_nonneg(s.take(i));
        assert(s.take(i + 1).drop_last() =~= s.take(i));
        assert(s.take(i + 1).last() == s[i]);
        assert(digits_val(s.take(i + 1)) == digits_val(s.take(i)) * 10 + digit_val(s[i]));
        assert(digits_val(s.take(i)) * 10 >= digits_val(s.take(i))) by (nonlinear_arith)
            requires
                digits_val(s.take(i)) >= 0,
        ;
    }
}

/// A sequence of digits values a nonnegative integer.
proof fn lemma_digits_val_nonneg(s: Seq<char>)
    requires
        forall|j: int| 0 <= j < s.len() ==> is_digit(s[j]),
    ensures
        digits_val(s) >= 0,
    decreases s.len(),
{
    if s.len() > 0 {
        lemma_digits_val_nonneg(s.drop_last());
        assert(digits_val(s.drop_last()) * 10 >= 0) by (nonlinear_arith)
            requires
                digits_val(s.drop_last()) >= 0,
        ;
    }
}

/// Reads the integer a token denotes, or `None` for any other token.
pub fn parse_i32(s: &str) -> (r: Option<i32>)
    ensures
        r == spec_parse_i32(s@),
{
    let len = s.unicode_len();
    if len == 0 {
        return None;
    }
    let first = s.get_char(0);
    let signed = first == '-' || first == '+';
    let negative = first == '-';
    let start: usize = if signed {
        1
    } else {
        0
    };
    if start == len {
        return None;
    }
    let ghost ds = if signed {
        s@.skip(1)
    } else {
        s@
    };
    // the magnitude bound Rust's own parser enforces: 2^31 for "-", 2^31 - 1 otherwise
    let bound: u64 = if negative {
        2147483648
    } else {
        2147483647
    };
    let mut acc: u64 = 0;
    let mut i: usize = start;
    while i < len
        invariant
            len == s@.len(),
            len > 0,
            start <= i <= len,
            start < len,
            signed == (s@[0] == '-' || s@[0] == '+'),
            negative == (s@[0] == '-'),
            bound == if negative {
                2147483648u64
            } else {
                2147483647u64
            },
            start == if signed {
                1int
            } else {
                0int
            },
            ds == if signed {
                s@.skip(1)
            } else {
                s@
            },
            forall|j: int| 0 <= j < i - start ==> is_digit(ds[j]),
            acc == digits_val(ds.take(i - start)),
            acc <= bound,
            2147483647 <= bound <= 2147483648,
        decreases len - i,
    {
        let c = s.get_char(i);
        proof {
            assert(ds.len() == len - start);
            if signed {
                assert(ds[i - start] == s@[i as int]);
            }
        }
        if c < '0' || c > '9' {
            proof {
                assert(!is_digit(ds[i - start]));
                assert(!all_digits(ds));
            }
            return None;
        }
        assert('0' as int == 48 && '9' as int == 57);
        let d: u64 = (c as u32 as u64) - 48;
        assert(d < 10);
        assert(d <= bound);
        proof {
            assert(ds.take(i + 1 - start).drop_last() =~= ds.take(i - start));
            assert(ds.take(i + 1 - start).last() == ds[i - start]);
        }
        if acc > (bound - d) / 10 {
            // the value read so far already exceeds the range; so does the whole token
            proof {
                assert(acc * 10 + d > bound) by (nonlinear_arith)
                    requires
                        acc > (bound - d) / 10,
                        0 <= d < 10,
                        d <= bound,
                ;
                let k = i + 1 - start;
                assert(digits_val(ds.take(k)) > bound);
                if all_digits(ds) {
                    lemma_digits_val_prefix(ds, k);
                    assert(digits_val(ds) > bound);
                }
            }
            return None;
        }
        proof {
            assert(acc * 10 + d <= bound) by (nonlinear_arith)
                requires
                    acc <= (bound - d) / 10,
                    0 <= d < 10,
                    d <= bound,
            ;
        }
        acc = acc * 10 + d;
        i = i + 1;
    }
    proof {
        assert(ds.take(len - start) =~= ds);
    }
    if negative {
        let v: i64 = -(acc as i64);
        Some(v as i32)
    } else {
        Some(acc as i32)
    }
}

/// Appends the decimal numeral of `n` to `s`.
fn push_dec(s: &mut String, n: u64)
    ensures
        final(s)@ == old(s)@ + dec_text(n as nat),
    decreases n,
{
    if n < 10 {
        push_char(s, digit_of(n));
        proof {
            assert(final(s)@ =~= old(s)@ + dec_text(n as nat));
        }
    } else {
        proof {
            assert(n / 10 < n) by (nonlinear_arith)
                requires
                    n >= 10,
            ;
        }
        push_dec(s, n / 10);
        push_char(s, digit_of(n % 10));
        proof {
            assert(final(s)@ =~= old(s)@ + dec_text(n as nat));
        }
    }
}

/// The digit character for `d < 10`.
fn digit_of(d: u64) -> (c: char)
    requires
        d < 10,
    ensures
        c == digit_char(d as int),
{
    if d == 0 {
        '0'
    } else if d == 1 {
        '1'
    } else if d == 2 {
        '2'
    } else if d == 3 {
        '3'
    } else if d == 4 {
        '4'
    } else if d == 5 {
        '5'
    } else if d == 6 {
        '6'
    } else if d == 7 {
        '7'
    } else if d == 8 {
        '8'
    } else {
        '9'
    }
}

/// Appends the decimal rendering of `v` to `s`.
pub fn push_i32(s: &mut String, v: i32)
    ensures
        final(s)@ == old(s)@ + i32_text(v),
{
    if v < 0 {
        push_char(s, '-');
        let m: u64 = (-(v as i64)) as u64;
        push_dec(s, m);
        proof {
            assert(final(s)@ =~= old(s)@ + i32_text(v));
        }
    } else {
        push_dec(s, v as u64);
    }
}

/// Appends the decimal numeral of an index to `s`.
pub fn push_usize(s: &mut String, n: usize)
    ensures
        final(s)@ == old(s)@ + dec_text(n as nat),
{
    push_dec(s, n as u64);
}

/// The decimal rendering of `v` as a fresh string.
pub fn i32_string(v: i32) -> (r: String)
    ensures
        r@ == i32_text(v),
{
    let mut s = String::new();
    push_i32(&mut s, v);
    proof {
        assert(s@ =~= i32_text(v));
    }
    s
}

} // verus!

verus! {

/// Decimal numerals hold digits alone.
proof fn lemma_dec_text_digits(n: nat)
    ensures
        all_digits(dec_text(n)),
        dec_text(n).len() >= 1,
        dec_text(n)[0] != '-',
        dec_text(n)[0] != '+',
    decreases n,
{
    if n < 10 {
        assert(is_digit(digit_char(n as int)));
    } else {
        lemma_dec_text_digits(n / 10);
        let d = dec_text(n / 10);
        let w = dec_text(n);
        assert(w == d.push(digit_char((n % 10) as int)));
        assert(is_digit(digit_char((n % 10) as int)));
        assert forall|j: int| 0 <= j < w.len() implies is_digit(w[j]) by {
            if j < d.len() {
                assert(w[j] == d[j]);
            }
        }
        assert(w[0] == d[0]);
    }
}

/// A numeral reads back to the number it was written from.
proof fn lemma_dec_text_val(n: nat)
    ensures
        digits_val(dec_text(n)) == n,
    decreases n,
{
    if n < 10 {
        let w = dec_text(n);
        assert(w == seq![digit_char(n as int)]);
        assert(w.drop_last() =~= Seq::<char>::empty());
        assert(w.last() == digit_char(n as int));
        assert(digits_val(w) == digits_val(w.drop_last()) * 10 + digit_val(w.last()));
        assert(digit_val(digit_char(n as int)) == n);
    } else {
        lemma_dec_text_val(n / 10);
        let w = dec_text(n);
        assert(w.drop_last() =~= dec_text(n / 10));
        assert(digits_val(w) == digits_val(dec_text(n / 10)) * 10 + digit_val(
            digit_char((n % 10) as int),
        ));
        assert(digit_val(digit_char((n % 10) as int)) == n % 10);
        assert((n / 10) * 10 + n % 10 == n) by (nonlinear_arith);
    }
}

/// The decimal rendering of an integer parses back to that integer: writing
/// and reading a number are inverse.
pub proof fn lemma_i32_text_round_trip(v: i32)
    ensures
        spec_parse_i32(i32_text(v)) == Some(v),
{
    let s = i32_text(v);
    if v < 0 {
        let m = (-(v as int)) as nat;
        lemma_dec_text_digits(m);
        lemma_dec_text_val(m);
        assert(s == seq!['-'] + dec_text(m));
        assert(s[0] == '-');
        assert(s.skip(1) =~= dec_text(m));
        assert(all_digits(s.skip(1)));
        assert(digits_val(s.skip(1)) == m);
    } else {
        let m = v as nat;
        lemma_dec_text_digits(m);
        lemma_dec_text_val(m);
        assert(s == dec_text(m));
        assert(s.len() > 0 && s[0] != '-' && s[0] != '+');
        assert(all_digits(s));
        assert(digits_val(s) == m);
    }
}

} // verus!

verus! {

/// A rendered integer starts with its sign or its leading digit, never with
/// a letter: a numeral spells no keyword.
pub proof fn lemma_i32_text_head(v: i32)
    ensures
        i32_text(v).len() > 0,
        i32_text(v)[0] == '-' || is_digit(i32_text(v)[0]),
{
    if v < 0 {
        assert(i32_text(v)[0] == '-');
    } else {
        lemma_dec_text_digits(v as nat);
        assert(is_digit(dec_text(v as nat)[0]));
    }
}

} // verus!

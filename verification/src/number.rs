//! Radix-aware parsing of integer tokens: a token is an optional single
//! leading sign followed by digits of the given base, with comma
//! digit-group separators stripped before parsing.

use vstd::prelude::*;

verus! {

/// Value of an ASCII digit or letter in positional notation; 36 marks a
/// byte that is a digit in no supported base.
pub open spec fn digit_val(b: u8) -> int {
    if 48 <= b && b <= 57 {
        b - 48
    } else if 97 <= b && b <= 122 {
        b - 97 + 10
    } else if 65 <= b && b <= 90 {
        b - 65 + 10
    } else {
        36
    }
}

/// Every byte of `s` is a digit of base `radix`.
pub open spec fn all_digits(s: Seq<u8>, radix: int) -> bool {
    forall|i: int| 0 <= i < s.len() ==> #[trigger] digit_val(s[i]) < radix
}

/// The number denoted by the digit string `s` in base `radix`, most
/// significant digit first.
pub open spec fn digits_value(s: Seq<u8>, radix: int) -> int
    decreases s.len(),
{
    if s.len() == 0 {
        0
    } else {
        digits_value(s.drop_last(), radix) * radix + digit_val(s.last())
    }
}

/// The signed integer denoted by `s` in base `radix`: an optional single
/// leading `+` or `-`, then at least one digit, all valid for the base.
pub open spec fn int_value(s: Seq<u8>, radix: int) -> Option<int> {
    if s.len() > 0 && (s[0] == 43 || s[0] == 45) {
        let mag = s.skip(1);
        if mag.len() > 0 && all_digits(mag, radix) {
            if s[0] == 45 {
                Some(-digits_value(mag, radix))
            } else {
                Some(digits_value(mag, radix))
            }
        } else {
            None
        }
    } else if s.len() > 0 && all_digits(s, radix) {
        Some(digits_value(s, radix))
    } else {
        None
    }
}

/// `int_value` restricted to the 32-bit signed range: out-of-range values
/// (overflow) parse to nothing.
pub open spec fn i32_value(s: Seq<u8>, radix: int) -> Option<int> {
    match int_value(s, radix) {
        Some(v) => if i32::MIN <= v && v <= i32::MAX {
            Some(v)
        } else {
            None
        },
        None => None,
    }
}

/// `s` with every comma removed.
pub open spec fn strip_commas(s: Seq<u8>) -> Seq<u8>
    decreases s.len(),
{
    if s.len() == 0 {
        Seq::empty()
    } else if s.last() == 44 {
        strip_commas(s.drop_last())
    } else {
        strip_commas(s.drop_last()).push(s.last())
    }
}

/// A digit string never denotes a negative number.
pub proof fn lemma_digits_value_nonneg(s: Seq<u8>, radix: int)
    requires
        radix >= 1,
    ensures
        digits_value(s, radix) >= 0,
    decreases s.len(),
{
    if s.len() > 0 {
        lemma_digits_value_nonneg(s.drop_last(), radix);
        assert(digits_value(s.drop_last(), radix) * radix >= 0) by (nonlinear_arith)
            requires
                digits_value(s.drop_last(), radix) >= 0,
                radix >= 1,
        ;
        assert(digit_val(s.last()) >= 0);
    }
}

/// Reading one more digit multiplies the value so far by the base and adds
/// that digit.
pub proof fn lemma_digits_value_step(s: Seq<u8>, radix: int, i: int)
    requires
        0 <= i < s.len(),
    ensures
        digits_value(s.take(i + 1), radix) == digits_value(s.take(i), radix) * radix + digit_val(
            s[i],
        ),
{
    assert(s.take(i + 1).drop_last() =~= s.take(i));
    assert(s.take(i + 1).last() == s[i]);
}

/// The value of a digit string is at least the value of any of its
/// prefixes: once a prefix overflows, the whole string does.
pub proof fn lemma_digits_value_prefix_le(s: Seq<u8>, radix: int, i: int)
    requires
        radix >= 1,
        0 <= i <= s.len(),
    ensures
        digits_value(s, radix) >= digits_value(s.take(i), radix),
    decreases s.len() - i,
{
    if i < s.len() {
        lemma_digits_value_step(s, radix, i);
        lemma_digits_value_nonneg(s.take(i), radix);
        assert(digits_value(s.take(i), radix) * radix >= digits_value(s.take(i), radix))
            by (nonlinear_arith)
            requires
                digits_value(s.take(i), radix) >= 0,
                radix >= 1,
        ;
        assert(digit_val(s[i]) >= 0);
        lemma_digits_value_prefix_le(s, radix, i + 1);
    } else {
        assert(s.take(i) =~= s);
    }
}

/// Value of an ASCII digit or letter; at least 36 for any other byte.
pub fn digit_of(b: u8) -> (r: u32)
    ensures
        r as int == digit_val(b),
{
    if 48 <= b && b <= 57 {
        (b - 48) as u32
    } else if 97 <= b && b <= 122 {
        (b - 97) as u32 + 10
    } else if 65 <= b && b <= 90 {
        (b - 65) as u32 + 10
    } else {
        36
    }
}

/// Copies `s` leaving every comma out.
pub fn without_commas(s: &[u8]) -> (r: Vec<u8>)
    ensures
        r@ == strip_commas(s@),
{
    let mut r: Vec<u8> = Vec::new();
    let mut i: usize = 0;
    while i < s.len()
        invariant
            i <= s@.len(),
            r@ == strip_commas(s@.take(i as int)),
        decreases s@.len() - i,
    {
        let b = *vstd::slice::slice_index_get(s, i);
        proof {
            assert(s@.take(i + 1).drop_last() =~= s@.take(i as int));
            assert(s@.take(i + 1).last() == s@[i as int]);
        }
        if b != 44 {
            r.push(b);
        }
        i = i + 1;
    }
    proof {
        assert(s@.take(s@.len() as int) =~= s@);
    }
    r
}

/// Parses `s` as a signed 32-bit integer written in base `radix`: the
/// result is exactly `i32_value`, so parsing fails on an empty string, a
/// stray sign, a digit outside the base, or 32-bit overflow.
pub fn parse_i32(s: &[u8], radix: u32) -> (r: Option<i32>)
    requires
        2 <= radix && radix <= 36,
    ensures
        r is None <==> i32_value(s@, radix as int) is None,
        r matches Some(v) ==> i32_value(s@, radix as int) == Some(v as int),
{
    let n = s.len();
    if n == 0 {
        return None;
    }
    let first = *vstd::slice::slice_index_get(s, 0);
    let neg = first == 45;
    let start: usize = if first == 45 || first == 43 {
        1
    } else {
        0
    };
    let ghost mag = s@.skip(start as int);
    let ghost rdx = radix as int;
    proof {
        if start == 0 {
            assert(mag =~= s@);
        }
    }
    if start == n {
        // a sign with no digits after it
        return None;
    }
    // first pass: every remaining byte must be a digit of the base
    let mut i = start;
    while i < n
        invariant
            start <= i <= n,
            n == s@.len(),
            2 <= radix <= 36,
            rdx == radix as int,
            start < n,
            start <= 1,
            neg <==> s@[0] == 45,
            start == 1 <==> (s@[0] == 43 || s@[0] == 45),
            start == 0 ==> mag == s@,
            mag == s@.skip(start as int),
            forall|j: int| start <= j < i ==> #[trigger] digit_val(s@[j]) < radix as int,
        decreases n - i,
    {
        let d = digit_of(*vstd::slice::slice_index_get(s, i));
        if d >= radix {
            proof {
                assert(mag[i - start] == s@[i as int]);
                assert(digit_val(mag[i - start]) >= rdx);
                assert(!all_digits(mag, rdx));
            }
            return None;
        }
        i = i + 1;
    }
    proof {
        assert forall|j: int| 0 <= j < mag.len() implies #[trigger] digit_val(mag[j]) < rdx by {
            assert(mag[j] == s@[j + start]);
        }
        assert(all_digits(mag, rdx));
    }
    // second pass: accumulate, stopping as soon as the value is too large
    let mut acc: u64 = 0;
    let mut i = start;
    while i < n
        invariant
            start <= i <= n,
            n == s@.len(),
            2 <= radix <= 36,
            rdx == radix as int,
            start < n,
            start <= 1,
            neg <==> s@[0] == 45,
            start == 1 <==> (s@[0] == 43 || s@[0] == 45),
            start == 0 ==> mag == s@,
            mag == s@.skip(start as int),
            all_digits(mag, rdx),
            acc as int == digits_value(mag.take(i - start), rdx),
            acc <= 0x8000_0000,
        decreases n - i,
    {
        let d = digit_of(*vstd::slice::slice_index_get(s, i));
        proof {
            assert(mag[i - start] == s@[i as int]);
            assert(digit_val(mag[i - start]) < rdx);
            lemma_digits_value_step(mag, rdx, i - start);
            assert((acc as int) * rdx + (d as int) <= 0x8000_0000 * 36 + 35) by (nonlinear_arith)
                requires
                    0 <= acc as int <= 0x8000_0000,
                    2 <= rdx <= 36,
                    0 <= d as int <= 35,
            ;
        }
        acc = acc * (radix as u64) + (d as u64);
        i = i + 1;
        if acc > 0x8000_0000 {
            proof {
                lemma_digits_value_prefix_le(mag, rdx, i - start);
            }
            return None;
        }
    }
    proof {
        assert(mag.take(n - start) =~= mag);
    }
    if neg {
        let v = -(acc as i64);
        Some(v as i32)
    } else {
        if acc > 0x7fff_ffff {
            return None;
        }
        Some(acc as i32)
    }
}

} // verus!

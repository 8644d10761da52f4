//! Parsing of device identifiers given on the command line: a 16-bit value
//! written either in hexadecimal with a `0x` prefix or in decimal, with an
//! optional leading `+` in the digits, as the standard integer parsers
//! accept.

use vstd::prelude::*;

verus! {

/// The value of ASCII digit `b` in base `radix`, or `-1` when `b` is no
/// digit of that base.
pub open spec fn spec_digit_val(b: u8, radix: int) -> int {
    let v = if 0x30 <= b <= 0x39 {
        b - 0x30
    } else if 0x61 <= b <= 0x66 {
        b - 0x61 + 10
    } else if 0x41 <= b <= 0x46 {
        b - 0x41 + 10
    } else {
        -1
    };
    if 0 <= v < radix {
        v
    } else {
        -1
    }
}

/// Every byte of `s` is a digit of base `radix`.
pub open spec fn spec_all_digits(s: Seq<u8>, radix: int) -> bool {
    forall|i: int| 0 <= i < s.len() ==> spec_digit_val(#[trigger] s[i], radix) >= 0
}

/// The numeric value of the digit string `s` in base `radix`.
pub open spec fn spec_digits_val(s: Seq<u8>, radix: int) -> int
    decreases s.len(),
{
    if s.len() == 0 {
        0
    } else {
        spec_digits_val(s.drop_last(), radix) * radix + spec_digit_val(s.last(), radix)
    }
}

/// The digit part of the input and its base: a `0x` prefix selects base 16,
/// and one leading `+` in the digits is allowed.
pub open spec fn spec_num_body(s: Seq<u8>) -> (Seq<u8>, int) {
    let (rest, radix): (Seq<u8>, int) = if s.len() >= 2 && s[0] == 0x30 && s[1] == 0x78 {
        (s.subrange(2, s.len() as int), 16)
    } else {
        (s, 10)
    };
    if rest.len() > 0 && rest[0] == 0x2b {
        (rest.drop_first(), radix)
    } else {
        (rest, radix)
    }
}

/// The input is a well-formed 16-bit identifier.
pub open spec fn spec_parse16_ok(s: Seq<u8>) -> bool {
    let (d, radix) = spec_num_body(s);
    &&& d.len() > 0
    &&& spec_all_digits(d, radix)
    &&& spec_digits_val(d, radix) <= 0xFFFF
}

/// The identifier's value.
pub open spec fn spec_parse16_val(s: Seq<u8>) -> int {
    spec_digits_val(spec_num_body(s).0, spec_num_body(s).1)
}

proof fn lemma_digits_val_nonneg(s: Seq<u8>, radix: int)
    requires
        radix >= 2,
        spec_all_digits(s, radix),
    ensures
        spec_digits_val(s, radix) >= 0,
    decreases s.len(),
{
    if s.len() > 0 {
        assert(spec_all_digits(s.drop_last(), radix));
        lemma_digits_val_nonneg(s.drop_last(), radix);
        assert(spec_digits_val(s.drop_last(), radix) * radix >= 0) by (nonlinear_arith)
            requires
                spec_digits_val(s.drop_last(), radix) >= 0,
                radix >= 2,
        ;
    }
}

/// A digit string's value never shrinks as digits are appended.
proof fn lemma_digits_val_prefix_le(s: Seq<u8>, radix: int, i: int)
    requires
        radix >= 2,
        spec_all_digits(s, radix),
        0 <= i <= s.len(),
    ensures
        spec_digits_val(s.take(i), radix) <= spec_digits_val(s, radix),
    decreases s.len() - i,
{
    if i < s.len() {
        let a = spec_digits_val(s.take(i), radix);
        let b = spec_digits_val(s.take(i + 1), radix);
        assert(s.take(i + 1).drop_last() =~= s.take(i));
        assert(s.take(i + 1).last() == s[i]);
        assert(spec_all_digits(s.take(i), radix));
        lemma_digits_val_nonneg(s.take(i), radix);
        assert(b == a * radix + spec_digit_val(s[i], radix));
        assert(a * radix >= a) by (nonlinear_arith)
            requires
                a >= 0,
                radix >= 2,
        ;
        lemma_digits_val_prefix_le(s, radix, i + 1);
    } else {
        assert(s.take(i) =~= s);
    }
}

/// Parses a 16-bit device identifier written in hexadecimal (with a `0x`
/// prefix) or decimal.
pub fn parse_hex_16(input: &[u8]) -> (r: Option<u16>)
    ensures
        match r {
            Some(v) => spec_parse16_ok(input@) && v as int == spec_parse16_val(input@),
            None => !spec_parse16_ok(input@),
        },
{
    let n = input.len();
    let hex = n >= 2 && *vstd::slice::slice_index_get(input, 0) == 0x30
        && *vstd::slice::slice_index_get(input, 1) == 0x78;
    let radix: u32 = if hex {
        16
    } else {
        10
    };
    let mut start: usize = if hex {
        2
    } else {
        0
    };
    if start < n && *vstd::slice::slice_index_get(input, start) == 0x2b {
        start = start + 1;
    }
    let ghost d = spec_num_body(input@).0;
    proof {
        assert(d =~= input@.subrange(start as int, n as int));
        assert(spec_num_body(input@).1 == radix as int);
    }
    if start == n {
        return None;
    }
    let mut acc: u32 = 0;
    let mut i: usize = start;
    while i < n
        invariant
            start <= i <= n,
            n == input@.len(),
            start < n,
            radix == spec_num_body(input@).1,
            radix == 10 || radix == 16,
            d == input@.subrange(start as int, n as int),
            d == spec_num_body(input@).0,
            spec_all_digits(d.take(i - start), radix as int),
            acc as int == spec_digits_val(d.take(i - start), radix as int),
            acc <= 0xFFFF,
        decreases n - i,
    {
        let b = *vstd::slice::slice_index_get(input, i);
        let v: u32 = if b >= 0x30 && b <= 0x39 {
            (b - 0x30) as u32
        } else if b >= 0x61 && b <= 0x66 {
            (b - 0x61) as u32 + 10
        } else if b >= 0x41 && b <= 0x46 {
            (b - 0x41) as u32 + 10
        } else {
            radix
        };
        if v >= radix {
            proof {
                assert(d[i - start] == input@[i as int]);
                assert(spec_digit_val(d[i - start], radix as int) < 0);
                assert(!spec_all_digits(d, radix as int));
            }
            return None;
        }
        let next: u32 = acc * radix + v;
        proof {
            assert(d.take(i - start + 1).drop_last() =~= d.take(i - start));
            assert(d.take(i - start + 1).last() == d[i - start]);
            assert(d[i - start] == input@[i as int]);
            assert(spec_digit_val(input@[i as int], radix as int) == v);
        }
        if next > 0xFFFF {
            proof {
                assert(spec_all_digits(d.take(i - start + 1), radix as int));
                assert(spec_digits_val(d.take(i - start + 1), radix as int) == next);
                if spec_all_digits(d, radix as int) {
                    lemma_digits_val_prefix_le(d, radix as int, i - start + 1);
                    assert(spec_digits_val(d, radix as int) > 0xFFFF);
                }
                assert(!spec_parse16_ok(input@));
            }
            return None;
        }
        acc = next;
        i = i + 1;
    }
    proof {
        assert(d.take(n - start) =~= d);
    }
    Some(acc as u16)
}

} // verus!

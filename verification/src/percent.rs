//! Percent-decoding of request paths, and the encoding it inverts.
//!
//! A `%` followed by two hexadecimal digits stands for the byte they spell;
//! any other byte, a lone `%` included, passes through unchanged.

use vstd::prelude::*;

verus! {

/// The byte is an ASCII hexadecimal digit.
pub open spec fn is_hex_digit(b: u8) -> bool {
    (48 <= b <= 57) || (65 <= b <= 70) || (97 <= b <= 102)
}

/// The numeric value of an ASCII hexadecimal digit.
pub open spec fn hex_value(b: u8) -> u8
    recommends
        is_hex_digit(b),
{
    if 48 <= b <= 57 {
        (b - 48) as u8
    } else if 65 <= b <= 70 {
        (b - 55) as u8
    } else {
        (b - 87) as u8
    }
}

/// The bytes begin with a complete escape: `%` and two hexadecimal digits.
pub open spec fn starts_escape(s: Seq<u8>) -> bool {
    s.len() >= 3 && s[0] == 37u8 && is_hex_digit(s[1]) && is_hex_digit(s[2])
}

/// The percent-decoding of a byte sequence: each complete escape becomes
/// the byte it spells, everything else passes through unchanged.
pub open spec fn percent_decoded(s: Seq<u8>) -> Seq<u8>
    decreases s.len(),
{
    if s.len() == 0 {
        Seq::empty()
    } else if starts_escape(s) {
        seq![(16 * hex_value(s[1]) + hex_value(s[2])) as u8] + percent_decoded(s.skip(3))
    } else {
        seq![s[0]] + percent_decoded(s.skip(1))
    }
}

/// Bytes a conservative encoder leaves bare: ASCII letters, digits, and
/// `- . _ ~ /` (the path separator stays readable in request paths).
pub open spec fn is_unreserved(b: u8) -> bool {
    (48 <= b <= 57) || (65 <= b <= 90) || (97 <= b <= 122) || b == 45u8 || b == 46u8 || b == 95u8
        || b == 126u8 || b == 47u8
}

/// The upper-case ASCII hexadecimal digit for a value below sixteen.
pub open spec fn hex_digit_char(v: u8) -> u8
    recommends
        v < 16,
{
    if v < 10 {
        (48 + v) as u8
    } else {
        (55 + v) as u8
    }
}

/// A percent-encoding that escapes every byte outside the unreserved set.
pub open spec fn percent_encoded(s: Seq<u8>) -> Seq<u8>
    decreases s.len(),
{
    if s.len() == 0 {
        Seq::empty()
    } else if is_unreserved(s[0]) {
        seq![s[0]] + percent_encoded(s.skip(1))
    } else {
        seq![37u8, hex_digit_char(s[0] / 16), hex_digit_char(s[0] % 16)] + percent_encoded(
            s.skip(1),
        )
    }
}

fn hex_digit_value(b: u8) -> (r: Option<u8>)
    ensures
        r is Some <==> is_hex_digit(b),
        r is Some ==> r.unwrap() == hex_value(b) && r.unwrap() < 16,
{
    if 48 <= b && b <= 57 {
        Some(b - 48)
    } else if 65 <= b && b <= 70 {
        Some(b - 55)
    } else if 97 <= b && b <= 102 {
        Some(b - 87)
    } else {
        None
    }
}

proof fn lemma_skip_skip<T>(s: Seq<T>, a: int, b: int)
    requires
        0 <= a,
        0 <= b,
        a + b <= s.len(),
    ensures
        s.skip(a).skip(b) == s.skip(a + b),
{
    assert(s.skip(a).skip(b) =~= s.skip(a + b));
}

/// Percent-decode a byte sequence.
pub fn percent_decode(s: &Vec<u8>) -> (r: Vec<u8>)
    ensures
        r@ == percent_decoded(s@),
{
    let mut out: Vec<u8> = Vec::new();
    let mut i: usize = 0;
    proof {
        assert(s@.skip(0) =~= s@);
    }
    while i < s.len()
        invariant
            i <= s.len(),
            percent_decoded(s@) == out@ + percent_decoded(s@.skip(i as int)),
        decreases s.len() - i,
    {
        proof {
            assert(s@.skip(i as int)[0] == s@[i as int]);
        }
        if s[i] == 37u8 && s.len() - i > 2 {
            proof {
                assert(s@.skip(i as int)[1] == s@[i + 1]);
                assert(s@.skip(i as int)[2] == s@[i + 2]);
            }
            let hi = hex_digit_value(s[i + 1]);
            let lo = hex_digit_value(s[i + 2]);
            match (hi, lo) {
                (Some(h), Some(l)) => {
                    proof {
                        assert(starts_escape(s@.skip(i as int)));
                        lemma_skip_skip(s@, i as int, 3);
                    }
                    out.push(16 * h + l);
                    i = i + 3;
                    continue ;
                },
                _ => {
                    proof {
                        assert(!starts_escape(s@.skip(i as int)));
                        lemma_skip_skip(s@, i as int, 1);
                    }
                },
            }
        } else {
            proof {
                assert(!starts_escape(s@.skip(i as int)));
                lemma_skip_skip(s@, i as int, 1);
            }
        }
        out.push(s[i]);
        i = i + 1;
    }
    proof {
        assert(s@.skip(i as int) =~= Seq::<u8>::empty());
        assert(out@ =~= percent_decoded(s@));
    }
    out
}

/// Decoding inverts encoding: every byte sequence survives a round trip
/// through `percent_encoded` and `percent_decoded` unchanged.
pub proof fn lemma_percent_round_trip(s: Seq<u8>)
    ensures
        percent_decoded(percent_encoded(s)) == s,
    decreases s.len(),
{
    if s.len() == 0 {
        assert(percent_decoded(percent_encoded(s)) =~= s);
    } else {
        lemma_percent_round_trip(s.skip(1));
        if is_unreserved(s[0]) {
            let e = percent_encoded(s);
            assert(e == seq![s[0]] + percent_encoded(s.skip(1)));
            assert(e[0] == s[0] && e[0] != 37u8);
            assert(!starts_escape(e));
            assert(e.skip(1) =~= percent_encoded(s.skip(1)));
            assert(percent_decoded(e) =~= s);
        } else {
            let b = s[0];
            let e = percent_encoded(s);
            assert(e == seq![37u8, hex_digit_char(b / 16), hex_digit_char(b % 16)]
                + percent_encoded(s.skip(1)));
            assert(b / 16 < 16 && b % 16 < 16) by (bit_vector);
            lemma_hex_digit_char_value(b / 16);
            lemma_hex_digit_char_value(b % 16);
            assert(starts_escape(e));
            assert(16 * (b / 16) + (b % 16) == b) by (bit_vector);
            assert(e.skip(3) =~= percent_encoded(s.skip(1)));
            assert(percent_decoded(e) =~= s);
        }
    }
}

proof fn lemma_hex_digit_char_value(v: u8)
    requires
        v < 16,
    ensures
        is_hex_digit(hex_digit_char(v)),
        hex_value(hex_digit_char(v)) == v,
{
}

} // verus!

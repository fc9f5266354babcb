//! Percent-encoding of capture values.
//!
//! When a concrete path is reconstructed from a template, every capture value
//! is rendered in a path-segment-safe form: bytes outside the unreserved set
//! (letters, digits, `-`, `.`, `_`, `~`) become `%` followed by two uppercase
//! hex digits. Decoding inverts the encoding, and is the step of request-time
//! capture extraction that can fail.

use vstd::prelude::*;

verus! {

/// A byte that is written as itself when a capture value is encoded.
pub open spec fn is_unreserved(b: u8) -> bool {
    crate::bytes::is_letter(b) || crate::bytes::is_digit(b) || b == 45 || b == 46 || b == 95
        || b == 126
}

/// A byte accepted as a hex digit when decoding: `0-9`, `A-F`, `a-f`.
pub open spec fn is_hex(b: u8) -> bool {
    crate::bytes::is_digit(b) || (65 <= b <= 70) || (97 <= b <= 102)
}

/// The uppercase hex digit for a value below 16.
pub open spec fn hex_char(n: u8) -> u8
    recommends
        n < 16,
{
    if n < 10 {
        (48 + n) as u8
    } else {
        (55 + n) as u8
    }
}

/// The value of a hex digit byte.
pub open spec fn hex_val(b: u8) -> u8
    recommends
        is_hex(b),
{
    if 48 <= b <= 57 {
        (b - 48) as u8
    } else if 65 <= b <= 70 {
        (b - 55) as u8
    } else if 97 <= b <= 102 {
        (b - 87) as u8
    } else {
        0
    }
}

/// How one byte is encoded: itself if unreserved, else `%` and two hex digits.
pub open spec fn enc_byte(b: u8) -> Seq<u8> {
    if is_unreserved(b) {
        seq![b]
    } else {
        seq![37u8, hex_char(b / 16), hex_char(b % 16)]
    }
}

/// The percent-encoding of a byte sequence.
pub open spec fn spec_encode(s: Seq<u8>) -> Seq<u8>
    decreases s.len(),
{
    if s.len() == 0 {
        Seq::empty()
    } else {
        enc_byte(s[0]) + spec_encode(s.subrange(1, s.len() as int))
    }
}

/// The percent-decoding of a byte sequence; `None` on a malformed `%` escape.
pub open spec fn spec_decode(s: Seq<u8>) -> Option<Seq<u8>>
    decreases s.len(),
{
    if s.len() == 0 {
        Some(Seq::empty())
    } else if s[0] == 37 {
        if s.len() >= 3 && is_hex(s[1]) && is_hex(s[2]) {
            match spec_decode(s.subrange(3, s.len() as int)) {
                Some(r) => Some(seq![(hex_val(s[1]) * 16 + hex_val(s[2])) as u8] + r),
                None => None,
            }
        } else {
            None
        }
    } else {
        match spec_decode(s.subrange(1, s.len() as int)) {
            Some(r) => Some(seq![s[0]] + r),
            None => None,
        }
    }
}

/// Every byte an encoder can emit: unreserved, `%`, or a hex digit.
pub open spec fn is_encoded_byte(b: u8) -> bool {
    is_unreserved(b) || b == 37 || is_hex(b)
}

/// Encoding a value one byte longer appends the encoding of the last byte.
pub proof fn lemma_encode_push(s: Seq<u8>, b: u8)
    ensures
        spec_encode(s.push(b)) == spec_encode(s) + enc_byte(b),
    decreases s.len(),
{
    let t = s.push(b);
    assert(t.len() == s.len() + 1 && t[0] == if s.len() == 0 { b } else { s[0] });
    if s.len() == 0 {
        assert(t.subrange(1, t.len() as int) =~= Seq::<u8>::empty());
        assert(spec_encode(t) == enc_byte(b) + spec_encode(Seq::<u8>::empty()));
        assert(enc_byte(b) + Seq::<u8>::empty() =~= Seq::<u8>::empty() + enc_byte(b));
    } else {
        lemma_encode_push(s.subrange(1, s.len() as int), b);
        assert(t.subrange(1, t.len() as int) =~= s.subrange(1, s.len() as int).push(b));
        assert(spec_encode(t) == enc_byte(s[0]) + (spec_encode(s.subrange(1, s.len() as int))
            + enc_byte(b)));
        assert(enc_byte(s[0]) + (spec_encode(s.subrange(1, s.len() as int)) + enc_byte(b)) =~= (
        enc_byte(s[0]) + spec_encode(s.subrange(1, s.len() as int))) + enc_byte(b));
    }
}

/// Every byte of an encoded value is unreserved, `%`, or a hex digit.
/// In particular an encoded value never contains `/` and never starts with
/// `:` or `*`, so it always stands as one static path segment.
pub proof fn lemma_encode_bytes(s: Seq<u8>)
    ensures
        forall|i: int|
            0 <= i < spec_encode(s).len() ==> is_encoded_byte(#[trigger] spec_encode(s)[i]),
    decreases s.len(),
{
    if s.len() > 0 {
        lemma_encode_bytes(s.subrange(1, s.len() as int));
        assert forall|i: int| 0 <= i < spec_encode(s).len() implies is_encoded_byte(
            #[trigger] spec_encode(s)[i],
        ) by {
            let e = enc_byte(s[0]);
            if i < e.len() {
                assert(spec_encode(s)[i] == e[i]);
                if !is_unreserved(s[0]) {
                    assert(s[0] / 16 < 16 && s[0] % 16 < 16) by (nonlinear_arith);
                }
            } else {
                assert(spec_encode(s)[i] == spec_encode(s.subrange(1, s.len() as int))[i
                    - e.len()]);
            }
        }
    }
}

/// Decoding inverts encoding: percent-encoding loses no information.
pub proof fn lemma_decode_encode(s: Seq<u8>)
    ensures
        spec_decode(spec_encode(s)) == Some(s),
    decreases s.len(),
{
    if s.len() == 0 {
        assert(spec_decode(spec_encode(s)) =~= Some(s));
    } else {
        let rest = s.subrange(1, s.len() as int);
        lemma_decode_encode(rest);
        let e = spec_encode(s);
        let b = s[0];
        if is_unreserved(b) {
            assert(e[0] == b && b != 37);
            assert(e.subrange(1, e.len() as int) =~= spec_encode(rest));
            assert(seq![b] + rest =~= s);
        } else {
            assert(e[0] == 37);
            assert(b / 16 < 16 && b % 16 < 16) by (nonlinear_arith);
            lemma_hex_round_trip(b / 16);
            lemma_hex_round_trip(b % 16);
            assert(e.len() >= 3 && is_hex(e[1]) && is_hex(e[2]));
            assert(e.subrange(3, e.len() as int) =~= spec_encode(rest));
            assert(hex_val(e[1]) * 16 + hex_val(e[2]) == (b / 16) * 16 + b % 16);
            assert((b / 16) * 16 + b % 16 == b) by {
                vstd::arithmetic::div_mod::lemma_fundamental_div_mod(b as int, 16);
            }
            assert(seq![(hex_val(e[1]) * 16 + hex_val(e[2])) as u8] + rest =~= s);
        }
    }
}

/// A hex digit written by the encoder reads back as the same value.
pub proof fn lemma_hex_round_trip(n: u8)
    requires
        n < 16,
    ensures
        is_hex(hex_char(n)),
        hex_val(hex_char(n)) == n,
{
}

/// Executable uppercase hex digit.
fn hex_char_x(n: u8) -> (r: u8)
    requires
        n < 16,
    ensures
        r == hex_char(n),
{
    if n < 10 {
        48 + n
    } else {
        55 + n
    }
}

/// Executable hex-digit test.
fn hex_x(b: u8) -> (r: bool)
    ensures
        r == is_hex(b),
{
    (48 <= b && b <= 57) || (65 <= b && b <= 70) || (97 <= b && b <= 102)
}

/// Executable hex-digit value.
fn hex_val_x(b: u8) -> (r: u8)
    ensures
        r == hex_val(b),
{
    if 48 <= b && b <= 57 {
        b - 48
    } else if 65 <= b && b <= 70 {
        b - 55
    } else if 97 <= b && b <= 102 {
        b - 87
    } else {
        0
    }
}

/// Percent-encode a capture value into a path-segment-safe form.
pub fn percent_encode(s: &Vec<u8>) -> (r: Vec<u8>)
    ensures
        r@ == spec_encode(s@),
{
    let mut out: Vec<u8> = Vec::new();
    let mut i: usize = 0;
    while i < s.len()
        invariant
            0 <= i <= s@.len(),
            out@ == spec_encode(s@.subrange(0, i as int)),
        decreases s@.len() - i,
    {
        let b = s[i];
        let unreserved = (65 <= b && b <= 90) || (97 <= b && b <= 122) || (48 <= b && b <= 57)
            || b == 45 || b == 46 || b == 95 || b == 126;
        if unreserved {
            out.push(b);
        } else {
            out.push(37);
            out.push(hex_char_x(b / 16));
            out.push(hex_char_x(b % 16));
        }
        proof {
            lemma_encode_push(s@.subrange(0, i as int), b);
            assert(s@.subrange(0, i + 1) =~= s@.subrange(0, i as int).push(b));
            assert(out@ =~= spec_encode(s@.subrange(0, i + 1)));
        }
        i = i + 1;
    }
    proof {
        assert(s@.subrange(0, s@.len() as int) =~= s@);
    }
    out
}

/// Percent-decode a path segment; `None` on a malformed `%` escape.
pub fn percent_decode(s: &Vec<u8>) -> (r: Option<Vec<u8>>)
    ensures
        match r {
            Some(v) => spec_decode(s@) == Some(v@),
            None => spec_decode(s@) is None,
        },
{
    let n = s.len();
    let mut out: Vec<u8> = Vec::new();
    let mut i: usize = 0;
    proof {
        assert(s@.subrange(0, n as int) =~= s@);
        let r0 = spec_decode(s@);
        if r0 is Some {
            assert(Seq::<u8>::empty() + r0.unwrap() =~= r0.unwrap());
        }
    }
    while i < n
        invariant
            n == s@.len(),
            0 <= i <= n,
            spec_decode(s@) == match spec_decode(s@.subrange(i as int, n as int)) {
                Some(rest) => Some(out@ + rest),
                None => None::<Seq<u8>>,
            },
        decreases n - i,
    {
        let ghost tail = s@.subrange(i as int, n as int);
        if s[i] == 37 {
            if n - i > 2 && hex_x(s[i + 1]) && hex_x(s[i + 2]) {
                let ghost old_out = out@;
                let v = hex_val_x(s[i + 1]) * 16 + hex_val_x(s[i + 2]);
                out.push(v);
                proof {
                    assert(tail.len() >= 3 && tail[0] == 37 && is_hex(tail[1]) && is_hex(
                        tail[2],
                    ));
                    assert(tail.subrange(3, tail.len() as int) =~= s@.subrange(
                        i + 3,
                        n as int,
                    ));
                    let r_opt = spec_decode(s@.subrange(i + 3, n as int));
                    if r_opt is Some {
                        assert(old_out + (seq![v] + r_opt.unwrap()) =~= out@ + r_opt.unwrap());
                    }
                }
                i = i + 3;
            } else {
                proof {
                    assert(tail[0] == 37);
                    assert(!(tail.len() >= 3 && is_hex(tail[1]) && is_hex(tail[2]))) by {
                        if tail.len() >= 3 {
                            assert(tail[1] == s@[i + 1] && tail[2] == s@[i + 2]);
                        }
                    }
                    assert(spec_decode(tail) is None);
                }
                return None;
            }
        } else {
            let ghost old_out = out@;
            let b = s[i];
            out.push(b);
            proof {
                assert(tail[0] == b && b != 37);
                assert(tail.subrange(1, tail.len() as int) =~= s@.subrange(i + 1, n as int));
                let r_opt = spec_decode(s@.subrange(i + 1, n as int));
                if r_opt is Some {
                    assert(old_out + (seq![b] + r_opt.unwrap()) =~= out@ + r_opt.unwrap());
                }
            }
            i = i + 1;
        }
    }
    proof {
        assert(s@.subrange(n as int, n as int) =~= Seq::<u8>::empty());
        assert(out@ + Seq::<u8>::empty() =~= out@);
    }
    Some(out)
}

} // verus!

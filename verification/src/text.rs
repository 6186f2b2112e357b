//! Conversions between byte sequences and strings, with the one trusted call
//! into the standard library that they need.
use vstd::prelude::*;
use vstd::utf8::{
    decode_utf8, encode_utf8_decode_utf8, is_ascii_chars, is_ascii_chars_encode_utf8, valid_utf8,
};
use vstd::string::StringSliceAdditionalSpecFns;
use crate::grammar::ascii_chars;

verus! {

/// Relies on `String::from_utf8`: it succeeds exactly on valid UTF-8 input,
/// and the string it returns is the character sequence those bytes encode.
#[verifier::external_body]
pub(crate) fn string_from_utf8(bytes: Vec<u8>) -> (r: Option<String>)
    ensures
        match r {
            Some(s) => valid_utf8(bytes@) && s@ == decode_utf8(bytes@),
            None => !valid_utf8(bytes@),
        },
{
    std::string::String::from_utf8(bytes).ok()
}

/// Whether a string equals a keyword literal, decided at the level of their
/// character sequences.
pub fn kw(s: &String, lit: &str) -> (r: bool)
    ensures
        r == (s@ == lit@),
{
    *s == lit.to_owned()
}

/// A sequence of ASCII bytes is valid UTF-8 and decodes to its own bytes read
/// as characters.
pub proof fn lemma_ascii_decode(b: Seq<u8>)
    requires
        forall|i: int| 0 <= i < b.len() ==> #[trigger] b[i] < 0x80,
    ensures
        valid_utf8(b),
        decode_utf8(b) == ascii_chars(b),
{
    let cs = ascii_chars(b);
    assert forall|i: int| 0 <= i < cs.len() implies '\0' <= #[trigger] cs[i] <= '\u{7f}' by {
        assert(cs[i] == b[i] as char);
        assert((b[i] as char) as u32 == b[i] as u32);
    }
    assert(is_ascii_chars(cs));
    is_ascii_chars_encode_utf8(cs);
    assert forall|i: int| 0 <= i < cs.len() implies vstd::utf8::encode_utf8(cs)[i] == b[i] by {
        assert(cs[i] as u8 == vstd::utf8::encode_utf8(cs)[i]);
        assert((b[i] as char) as u32 == b[i] as u32);
    }
    assert(vstd::utf8::encode_utf8(cs) =~= b);
    vstd::utf8::encode_utf8_valid_utf8(cs);
    encode_utf8_decode_utf8(cs);
}

/// Relies on `String::push_str`: it appends exactly the given characters to
/// the string and changes nothing else.
#[verifier::external_body]
pub(crate) fn push_str(s: &mut String, piece: &str)
    ensures
        final(s)@ == old(s)@ + piece@,
{
    s.push_str(piece);
}

/// The decimal digit bytes of `n`, most significant first, without a sign
/// and without leading zeros (a single `0` for zero).
pub open spec fn dec_digits(n: nat) -> Seq<u8>
    decreases n,
{
    if n < 10 {
        seq![(0x30 + n) as u8]
    } else {
        dec_digits(n / 10).push((0x30 + n % 10) as u8)
    }
}

/// `dec_digits` yields only ASCII digit bytes.
pub proof fn lemma_dec_digits_ascii(n: nat)
    ensures
        dec_digits(n).len() >= 1,
        forall|i: int| 0 <= i < dec_digits(n).len() ==> 0x30 <= #[trigger] dec_digits(n)[i]
            <= 0x39,
    decreases n,
{
    if n >= 10 {
        lemma_dec_digits_ascii(n / 10);
    }
}

/// The decimal digits of `n`, left-padded with the byte `fill` up to `w`
/// bytes; digits are never cut.
pub open spec fn dec_digits_pad(n: nat, w: nat, fill: u8) -> Seq<u8> {
    if dec_digits(n).len() >= w {
        dec_digits(n)
    } else {
        Seq::new((w - dec_digits(n).len()) as nat, |i: int| fill) + dec_digits(n)
    }
}

/// The decimal text of `n`.
pub open spec fn dec_chars(n: nat) -> Seq<char> {
    ascii_chars(dec_digits(n))
}

/// The decimal text of `n`, left-padded with the character of `fill` up to
/// `w` characters.
pub open spec fn dec_chars_pad(n: nat, w: nat, fill: u8) -> Seq<char> {
    ascii_chars(dec_digits_pad(n, w, fill))
}

/// The decimal text of `n`, left-padded with `fill` (an ASCII byte, say `0`
/// or a space) to at least `width` characters.
pub fn u32_pad(n: u32, width: usize, fill: u8) -> (r: String)
    requires
        fill < 0x80,
    ensures
        r@ == dec_chars_pad(n as nat, width as nat, fill),
{
    let mut acc: Vec<u8> = Vec::new();
    let mut m: u32 = n;
    while m >= 10
        invariant
            dec_digits(n as nat) == dec_digits(m as nat) + acc@.reverse(),
        decreases m,
    {
        let ghost acc0 = acc@;
        acc.push(0x30 + (m % 10) as u8);
        m = m / 10;
        proof {
            assert(acc@.reverse() =~= seq![acc@.last()] + acc0.reverse());
            assert(dec_digits(n as nat) =~= (dec_digits(m as nat) + seq![acc@.last()])
                + acc0.reverse());
            assert(dec_digits(m as nat) + (seq![acc@.last()] + acc0.reverse()) =~= (dec_digits(
                m as nat,
            ) + seq![acc@.last()]) + acc0.reverse());
        }
    }
    let ghost accl = acc@;
    acc.push(0x30 + (m % 10) as u8);
    proof {
        assert(dec_digits(m as nat) =~= seq![acc@.last()]);
        assert(acc@.reverse() =~= seq![acc@.last()] + accl.reverse());
        assert(dec_digits(n as nat) =~= acc@.reverse());
    }
    let digit_count = acc.len();
    let mut out: Vec<u8> = Vec::new();
    while out.len() + digit_count < width
        invariant
            digit_count == acc@.len(),
            out@.len() + digit_count <= width || out@.len() == 0,
            forall|j: int| 0 <= j < out@.len() ==> out@[j] == fill,
        decreases width - out@.len(),
    {
        out.push(fill);
    }
    let ghost pad = out@;
    let mut i: usize = 0;
    while i < acc.len()
        invariant
            i <= acc@.len(),
            acc@ == accl.push(acc@.last()),
            out@ =~= pad + acc@.reverse().subrange(0, i as int),
        decreases acc@.len() - i,
    {
        out.push(acc[acc.len() - 1 - i]);
        i = i + 1;
        proof {
            assert(acc@.reverse()[i - 1] == acc@[acc@.len() - i]);
            assert(acc@.reverse().subrange(0, i as int) =~= acc@.reverse().subrange(
                0,
                i - 1,
            ).push(acc@.reverse()[i - 1]));
        }
    }
    proof {
        assert(acc@.reverse().subrange(0, acc@.len() as int) =~= acc@.reverse());
        assert(out@ =~= pad + dec_digits(n as nat));
        lemma_dec_digits_ascii(n as nat);
        assert(out@ =~= dec_digits_pad(n as nat, width as nat, fill));
        lemma_ascii_decode(out@);
    }
    string_from_utf8(out).unwrap()
}

/// The plain decimal text of `n`.
pub fn u32_to_string(n: u32) -> (r: String)
    ensures
        r@ == dec_chars(n as nat),
{
    let r = u32_pad(n, 0, 0x30);
    proof {
        lemma_dec_digits_ascii(n as nat);
    }
    r
}

/// Lexicographic order on byte sequences: the order `str` comparison uses,
/// applied to the UTF-8 bytes of the strings.
pub open spec fn bytes_le(a: Seq<u8>, b: Seq<u8>) -> bool
    decreases a.len(),
{
    if a.len() == 0 {
        true
    } else if b.len() == 0 {
        false
    } else if a[0] < b[0] {
        true
    } else if a[0] > b[0] {
        false
    } else {
        bytes_le(a.drop_first(), b.drop_first())
    }
}

/// The order is total: two byte sequences always compare one way or the
/// other.
pub proof fn lemma_bytes_le_total(a: Seq<u8>, b: Seq<u8>)
    ensures
        bytes_le(a, b) || bytes_le(b, a),
    decreases a.len(),
{
    if a.len() > 0 && b.len() > 0 && a[0] == b[0] {
        lemma_bytes_le_total(a.drop_first(), b.drop_first());
    }
}

/// Whether `a` comes at or before `b` in byte order.
pub fn str_le(a: &str, b: &str) -> (r: bool)
    ensures
        r == bytes_le(a.spec_bytes(), b.spec_bytes()),
{
    let ab = a.as_bytes();
    let bb = b.as_bytes();
    proof {
        assert(ab@.subrange(0, ab@.len() as int) =~= ab@);
        assert(bb@.subrange(0, bb@.len() as int) =~= bb@);
    }
    let mut i: usize = 0;
    loop
        invariant
            i <= ab@.len(),
            i <= bb@.len(),
            ab@ == a.spec_bytes(),
            bb@ == b.spec_bytes(),
            bytes_le(a.spec_bytes(), b.spec_bytes()) == bytes_le(
                ab@.subrange(i as int, ab@.len() as int),
                bb@.subrange(i as int, bb@.len() as int),
            ),
        decreases ab@.len() - i,
    {
        let ghost sa = ab@.subrange(i as int, ab@.len() as int);
        let ghost sb = bb@.subrange(i as int, bb@.len() as int);
        if i >= ab.len() {
            return true;
        }
        if i >= bb.len() {
            return false;
        }
        let x = ab[i];
        let y = bb[i];
        if x < y {
            return true;
        }
        if x > y {
            return false;
        }
        i = i + 1;
        proof {
            assert(sa.drop_first() =~= ab@.subrange(i as int, ab@.len() as int));
            assert(sb.drop_first() =~= bb@.subrange(i as int, bb@.len() as int));
        }
    }
}

} // verus!

//! Writing an expression tree back out in the textual grammar, and the proof
//! that the reader turns such text back into the tree it came from.
use vstd::prelude::*;
use vstd::string::StringSliceAdditionalSpecFns;
use vstd::utf8::{
    encode_utf8, encode_utf8_decode_utf8, encode_utf8_valid_utf8, is_ascii_chars,
    is_ascii_chars_encode_utf8,
};
use crate::grammar::{
    is_alnum, is_alpha, is_digit, is_ws, skip_ws, spec_expression, spec_literal_bytes, spec_node,
    spec_number, spec_quoted_body, spec_tuple, SpecErr, SpecNode,
};
use crate::sexp::{models, Expression, SpecExpr};
use crate::text::{dec_digits, lemma_dec_digits_ascii};

verus! {

/// Escape a byte run for a quoted token: the backslash and the terminator
/// byte get a leading backslash, everything else passes through.
pub open spec fn esc_bytes(bs: Seq<u8>, term: u8) -> Seq<u8>
    decreases bs.len(),
{
    if bs.len() == 0 {
        Seq::empty()
    } else {
        (if bs[0] == 0x5c || bs[0] == term {
            seq![0x5cu8, bs[0]]
        } else {
            seq![bs[0]]
        }) + esc_bytes(bs.drop_first(), term)
    }
}

/// The textual form of an expression tree: tuples parenthesized with a
/// space after each element, strings quoted and escaped, literals and
/// integers as they stand.
pub open spec fn ser_expr(e: SpecExpr) -> Seq<u8>
    decreases e, 1int,
{
    match e {
        SpecExpr::Tuple(items) => seq![0x28u8] + ser_items(items) + seq![0x29u8],
        SpecExpr::Literal(cs) => encode_utf8(cs),
        SpecExpr::Quoted(cs) => seq![0x22u8] + esc_bytes(encode_utf8(cs), 0x22) + seq![0x22u8],
        SpecExpr::Backquoted(cs) => seq![0x60u8] + esc_bytes(encode_utf8(cs), 0x60) + seq![
            0x60u8,
        ],
        SpecExpr::Integer(n) => dec_digits(n as nat),
    }
}

/// The textual form of a tuple's elements, a space after each.
pub open spec fn ser_items(items: Seq<SpecExpr>) -> Seq<u8>
    decreases items, 0int,
{
    if items.len() == 0 {
        Seq::empty()
    } else {
        ser_expr(items[0]) + seq![0x20u8] + ser_items(items.subrange(1, items.len() as int))
    }
}

/// An ASCII letter, as a character.
pub open spec fn alpha_char(c: char) -> bool {
    ('a' <= c && c <= 'z') || ('A' <= c && c <= 'Z')
}

/// An ASCII letter or digit, as a character.
pub open spec fn alnum_char(c: char) -> bool {
    alpha_char(c) || ('0' <= c && c <= '9')
}

/// Whether every literal in the tree has the shape the grammar can read
/// back: non-empty, a letter first, letters and digits after.  Strings,
/// code strings and integers are unrestricted.
pub open spec fn wf_literals(e: SpecExpr) -> bool
    decreases e, 1int,
{
    match e {
        SpecExpr::Tuple(items) => wf_literals_all(items),
        SpecExpr::Literal(cs) => cs.len() >= 1 && alpha_char(cs[0]) && (forall|i: int|
            0 <= i < cs.len() ==> alnum_char(#[trigger] cs[i])),
        _ => true,
    }
}

/// [`wf_literals`] over every element of a list.
pub open spec fn wf_literals_all(items: Seq<SpecExpr>) -> bool
    decreases items, 0int,
{
    if items.len() == 0 {
        true
    } else {
        wf_literals(items[0]) && wf_literals_all(items.subrange(1, items.len() as int))
    }
}

/// Reading a quoted body from its escaped text yields the original bytes and
/// stops just past the terminator.
proof fn lemma_quoted_body_ser(bs: Seq<u8>, term: u8, s: Seq<u8>, i: int)
    requires
        term == 0x22 || term == 0x60,
        0 <= i,
        i + esc_bytes(bs, term).len() + 1 <= s.len(),
        s.subrange(i, i + esc_bytes(bs, term).len() + 1) == esc_bytes(bs, term) + seq![term],
    ensures
        spec_quoted_body(s, i, term) == Ok::<_, SpecErr>(
            (bs, i + esc_bytes(bs, term).len() + 1),
        ),
    decreases bs.len(),
{
    let esc = esc_bytes(bs, term);
    let sub = s.subrange(i, i + esc.len() + 1);
    if bs.len() == 0 {
        assert(bs =~= Seq::<u8>::empty());
        assert(s[i] == sub[0]);
        assert(s[i] == term);
        assert(spec_quoted_body(s, i, term) == Ok::<_, SpecErr>((Seq::<u8>::empty(), i + 1)));
    } else {
        let b = bs[0];
        let rest = bs.drop_first();
        let esc_rest = esc_bytes(rest, term);
        if b == 0x5c || b == term {
            assert(esc == seq![0x5cu8, b] + esc_rest);
            assert(s[i] == sub[0] && sub[0] == 0x5c);
            assert(s[i + 1] == sub[1] && sub[1] == b);
            assert(s.subrange(i + 2, i + 2 + esc_rest.len() + 1) =~= esc_rest + seq![term]) by {
                assert forall|k: int| 0 <= k < esc_rest.len() + 1 implies s.subrange(
                    i + 2,
                    i + 2 + esc_rest.len() + 1,
                )[k] == (esc_rest + seq![term])[k] by {
                    assert(s.subrange(i + 2, i + 2 + esc_rest.len() + 1)[k] == sub[k + 2]);
                }
            }
            lemma_quoted_body_ser(rest, term, s, i + 2);
            assert(seq![b] + rest =~= bs);
            assert(esc.len() == 2 + esc_rest.len());
        } else {
            assert(esc == seq![b] + esc_rest);
            assert(s[i] == sub[0] && sub[0] == b);
            assert(b != 0x5c && b != term);
            assert(s.subrange(i + 1, i + 1 + esc_rest.len() + 1) =~= esc_rest + seq![term]) by {
                assert forall|k: int| 0 <= k < esc_rest.len() + 1 implies s.subrange(
                    i + 1,
                    i + 1 + esc_rest.len() + 1,
                )[k] == (esc_rest + seq![term])[k] by {
                    assert(s.subrange(i + 1, i + 1 + esc_rest.len() + 1)[k] == sub[k + 1]);
                }
            }
            lemma_quoted_body_ser(rest, term, s, i + 1);
            assert(seq![b] + rest =~= bs);
            assert(esc.len() == 1 + esc_rest.len());
        }
    }
}

/// Reading a run of digits accumulates exactly as [`digits_acc`] says and
/// stops at the first byte that is not a digit.
pub open spec fn digits_acc(ds: Seq<u8>, acc: u32) -> u32
    decreases ds.len(),
{
    if ds.len() == 0 {
        acc
    } else {
        digits_acc(ds.drop_first(), ((acc * 10 + (ds[0] - 0x30)) % 0x1_0000_0000) as u32)
    }
}

proof fn lemma_number_run(s: Seq<u8>, i: int, j: int, acc: u32)
    requires
        0 <= i <= j <= s.len(),
        forall|k: int| i <= k < j ==> is_digit(#[trigger] s[k]),
        j == s.len() || !is_digit(s[j as int]),
    ensures
        spec_number(s, i, acc) == (digits_acc(s.subrange(i, j), acc), j),
    decreases j - i,
{
    let ds = s.subrange(i, j);
    if i == j {
    } else {
        assert(is_digit(s[i]));
        assert(ds[0] == s[i]);
        lemma_number_run(s, i + 1, j, ((acc * 10 + (s[i] - 0x30)) % 0x1_0000_0000) as u32);
        assert(ds.drop_first() =~= s.subrange(i + 1, j));
    }
}

/// Ten to the `k`.
pub open spec fn pow10(k: nat) -> nat
    decreases k,
{
    if k == 0 {
        1nat
    } else {
        10 * pow10((k - 1) as nat)
    }
}

/// Folding one more digit onto the accumulator.
proof fn lemma_digits_acc_push(ds: Seq<u8>, d: u8, acc: u32)
    ensures
        digits_acc(ds.push(d), acc) == ((digits_acc(ds, acc) * 10 + (d - 0x30))
            % 0x1_0000_0000) as u32,
    decreases ds.len(),
{
    if ds.len() == 0 {
        assert(ds =~= Seq::<u8>::empty());
        assert(ds.push(d)[0] == d);
        assert(ds.push(d).drop_first() =~= Seq::<u8>::empty());
        assert(digits_acc(ds, acc) == acc);
        assert(digits_acc(ds.push(d), acc) == digits_acc(
            Seq::<u8>::empty(),
            ((acc * 10 + (d - 0x30)) % 0x1_0000_0000) as u32,
        ));
    } else {
        assert(ds.push(d)[0] == ds[0]);
        assert(ds.push(d).drop_first() =~= ds.drop_first().push(d));
        lemma_digits_acc_push(
            ds.drop_first(),
            d,
            ((acc * 10 + (ds[0] - 0x30)) % 0x1_0000_0000) as u32,
        );
    }
}

/// Folding the decimal digits of `m` onto `acc` computes `acc` shifted left
/// by the digit count plus `m`, wrapped at 2^32.
proof fn lemma_digits_acc_value(m: nat, acc: u32)
    ensures
        digits_acc(dec_digits(m), acc) == ((acc * pow10(dec_digits(m).len()) + m)
            % 0x1_0000_0000) as u32,
    decreases m,
{
    let big = 0x1_0000_0000int;
    assert(pow10(0) == 1);
    if m < 10 {
        assert(dec_digits(m) == seq![(0x30 + m) as u8]);
        assert(dec_digits(m)[0] == (0x30 + m) as u8);
        assert(dec_digits(m).drop_first() =~= Seq::<u8>::empty());
        assert(digits_acc(Seq::<u8>::empty(), ((acc * 10 + ((0x30 + m) as u8 - 0x30))
            % big) as u32) == ((acc * 10 + ((0x30 + m) as u8 - 0x30)) % big) as u32);
        assert(digits_acc(dec_digits(m), acc) == ((acc * 10 + ((0x30 + m) as u8 - 0x30))
            % big) as u32);
        assert(pow10(1) == 10);
        assert((0x30 + m) as u8 - 0x30 == m);
    } else {
        let prefix = dec_digits(m / 10);
        let d = (0x30 + m % 10) as u8;
        assert(dec_digits(m) == prefix.push(d));
        lemma_digits_acc_push(prefix, d, acc);
        lemma_digits_acc_value(m / 10, acc);
        let x = digits_acc(prefix, acc);
        let k = prefix.len();
        assert(x == ((acc * pow10(k) + m / 10) % big) as u32);
        assert(d - 0x30 == m % 10);
        assert(digits_acc(dec_digits(m), acc) == ((x * 10 + m % 10) % big) as u32);
        assert(((acc * pow10(k) + m / 10) % big) * 10 % big == (acc * pow10(k) + m / 10) * 10
            % big) by {
            vstd::arithmetic::div_mod::lemma_mul_mod_noop_left(
                acc * pow10(k) + m / 10,
                10,
                big,
            );
        }
        assert((((acc * pow10(k) + m / 10) % big) * 10 + m % 10) % big == ((acc * pow10(k) + m
            / 10) * 10 + m % 10) % big) by {
            vstd::arithmetic::div_mod::lemma_add_mod_noop(
                ((acc * pow10(k) + m / 10) % big) * 10,
                (m % 10) as int,
                big,
            );
            vstd::arithmetic::div_mod::lemma_add_mod_noop(
                (acc * pow10(k) + m / 10) * 10,
                (m % 10) as int,
                big,
            );
            vstd::arithmetic::div_mod::lemma_mul_mod_noop_left(
                acc * pow10(k) + m / 10,
                10,
                big,
            );
        }
        assert((acc * pow10(k) + m / 10) * 10 + m % 10 == acc * (10 * pow10(k)) + ((m / 10) * 10
            + m % 10)) by (nonlinear_arith);
        assert((m / 10) * 10 + m % 10 == m) by {
            vstd::arithmetic::div_mod::lemma_fundamental_div_mod(m as int, 10);
        }
        assert(pow10(k + 1) == 10 * pow10(k));
        assert(dec_digits(m).len() == k + 1);
    }
}

/// The decimal digits of a 32-bit value read back as that value.
proof fn lemma_digits_acc_exact(n: u32)
    ensures
        digits_acc(dec_digits(n as nat), 0) == n,
{
    lemma_digits_acc_value(n as nat, 0);
    assert((0 * pow10(dec_digits(n as nat).len()) + n as nat) % 0x1_0000_0000 == n as nat % 0x1_0000_0000);
    assert(n < 0x1_0000_0000);
    assert(n as nat % 0x1_0000_0000 == n as nat);
}

/// Reading a run of letters and digits yields the run and stops at the first
/// byte past it.
proof fn lemma_literal_run(s: Seq<u8>, i: int, j: int)
    requires
        0 <= i <= j <= s.len(),
        forall|k: int| i <= k < j ==> is_alnum(#[trigger] s[k]),
        j == s.len() || !is_alnum(s[j as int]),
    ensures
        spec_literal_bytes(s, i) == (s.subrange(i, j), j),
    decreases j - i,
{
    if i == j {
        assert(s.subrange(i, j) =~= Seq::<u8>::empty());
    } else {
        assert(is_alnum(s[i]));
        lemma_literal_run(s, i + 1, j);
        assert(seq![s[i]] + s.subrange(i + 1, j) =~= s.subrange(i, j));
    }
}

/// The first byte of a serialized tree classifies it for the reader: it is
/// never whitespace, and it is the dispatch byte of its kind.
proof fn lemma_ser_first(e: SpecExpr)
    requires
        wf_literals(e),
    ensures
        ser_expr(e).len() >= 1,
        !is_ws(ser_expr(e)[0]),
        e is Tuple ==> ser_expr(e)[0] == 0x28,
        e is Quoted ==> ser_expr(e)[0] == 0x22,
        e is Backquoted ==> ser_expr(e)[0] == 0x60,
        e is Integer ==> is_digit(ser_expr(e)[0]),
        e is Literal ==> is_alpha(ser_expr(e)[0]),
{
    match e {
        SpecExpr::Literal(cs) => {
            lemma_alnum_ascii(cs);
            is_ascii_chars_encode_utf8(cs);
            assert(encode_utf8(cs)[0] == cs[0] as u8);
            assert((cs[0] as u8) as u32 == cs[0] as u32);
            assert(is_alpha(cs[0] as u8));
        },
        SpecExpr::Integer(n) => {
            lemma_dec_digits_ascii(n as nat);
        },
        _ => {},
    }
}

/// A sequence of letters and digits is a sequence of ASCII characters, and
/// its UTF-8 bytes are the characters themselves, each a letter or digit.
proof fn lemma_alnum_ascii(cs: Seq<char>)
    requires
        forall|i: int| 0 <= i < cs.len() ==> alnum_char(#[trigger] cs[i]),
    ensures
        is_ascii_chars(cs),
        encode_utf8(cs).len() == cs.len(),
        forall|i: int| 0 <= i < cs.len() ==> #[trigger] encode_utf8(cs)[i] == cs[i] as u8,
        forall|i: int| 0 <= i < cs.len() ==> is_alnum(#[trigger] encode_utf8(cs)[i]),
{
    assert forall|i: int| 0 <= i < cs.len() implies '\0' <= #[trigger] cs[i] <= '\u{7f}' by {
        assert(alnum_char(cs[i]));
    }
    assert(is_ascii_chars(cs));
    is_ascii_chars_encode_utf8(cs);
    assert forall|i: int| 0 <= i < cs.len() implies is_alnum(#[trigger] encode_utf8(cs)[i]) by {
        assert(encode_utf8(cs)[i] == cs[i] as u8);
        assert((cs[i] as u8) as u32 == cs[i] as u32);
        assert(alnum_char(cs[i]));
    }
}

/// A run of ASCII letters and digits reads back as the characters the bytes
/// stand for.
proof fn lemma_alnum_chars_identity(cs: Seq<char>)
    requires
        forall|i: int| 0 <= i < cs.len() ==> alnum_char(#[trigger] cs[i]),
    ensures
        crate::grammar::ascii_chars(encode_utf8(cs)) == cs,
{
    lemma_alnum_ascii(cs);
    assert forall|i: int| 0 <= i < cs.len() implies crate::grammar::ascii_chars(
        encode_utf8(cs),
    )[i] == cs[i] by {
        let b = encode_utf8(cs)[i];
        assert(b == cs[i] as u8);
        assert((b as char) as u32 == b as u32);
        assert(b as u32 == cs[i] as u32);
        vstd::utf8::char_u32_cast(cs[i], cs[i] as u32);
        vstd::utf8::char_u32_cast(b as char, (b as char) as u32);
    }
    assert(crate::grammar::ascii_chars(encode_utf8(cs)) =~= cs);
}

/// A whitespace byte before a tuple body changes nothing: the reader skips
/// it.
proof fn lemma_tuple_ws(s: Seq<u8>, p: int)
    requires
        0 <= p,
        p < s.len(),
        is_ws(s[p]),
    ensures
        spec_node(s, p) == spec_node(s, p + 1),
        spec_tuple(s, p) == spec_tuple(s, p + 1),
{
    assert(skip_ws(s, p) == skip_ws(s, p + 1));
    crate::grammar::lemma_skip_ws_bounds(s, p + 1);
    match spec_node(s, p + 1) {
        Ok((SpecNode::Expr(_), j0)) => {
            crate::grammar::lemma_node_progress(s, p + 1);
        },
        _ => {},
    }
}

/// Reading a tuple body from the serialized elements yields the elements and
/// stops just past the closing parenthesis.
proof fn lemma_tuple_ser(items: Seq<SpecExpr>, s: Seq<u8>, i: int)
    requires
        wf_literals_all(items),
        0 <= i,
        i + ser_items(items).len() + 1 <= s.len(),
        s.subrange(i, i + ser_items(items).len() + 1) == ser_items(items) + seq![0x29u8],
    ensures
        spec_tuple(s, i) == Ok::<_, SpecErr>((items, i + ser_items(items).len() + 1)),
    decreases items, 0int,
{
    let body = ser_items(items);
    let sub = s.subrange(i, i + body.len() + 1);
    if items.len() == 0 {
        assert(s[i] == sub[0]);
        assert(s[i] == 0x29);
        assert(skip_ws(s, i) == i);
        assert(items =~= Seq::<SpecExpr>::empty());
    } else {
        let first = items[0];
        let rest = items.subrange(1, items.len() as int);
        let l0 = ser_expr(first).len() as int;
        let lr = ser_items(rest).len() as int;
        assert(body == ser_expr(first) + seq![0x20u8] + ser_items(rest));
        assert(body.len() == l0 + 1 + lr);
        lemma_ser_first(first);
        assert(s.subrange(i, i + l0) =~= ser_expr(first)) by {
            assert forall|k: int| 0 <= k < l0 implies s.subrange(i, i + l0)[k] == ser_expr(
                first,
            )[k] by {
                assert(s.subrange(i, i + l0)[k] == sub[k]);
            }
        }
        assert(s[i + l0] == sub[l0]);
        assert(s[i + l0] == 0x20);
        assert(!is_alnum(s[i + l0]));
        lemma_node_ser(first, s, i);
        crate::grammar::lemma_node_progress(s, i);
        lemma_tuple_ws(s, i + l0);
        assert(s.subrange(i + l0 + 1, i + l0 + 1 + lr + 1) =~= ser_items(rest) + seq![0x29u8])
            by {
            assert forall|k: int| 0 <= k < lr + 1 implies s.subrange(
                i + l0 + 1,
                i + l0 + 1 + lr + 1,
            )[k] == (ser_items(rest) + seq![0x29u8])[k] by {
                assert(s.subrange(i + l0 + 1, i + l0 + 1 + lr + 1)[k] == sub[k + l0 + 1]);
            }
        }
        lemma_tuple_ser(rest, s, i + l0 + 1);
        assert(seq![first] + rest =~= items);
    }
}

/// Reading one serialized expression yields it back, stopping exactly at its
/// end, provided no letter or digit follows directly (inside a tuple a space
/// or the closing parenthesis follows; at the top level, nothing).
proof fn lemma_node_ser(e: SpecExpr, s: Seq<u8>, i: int)
    requires
        wf_literals(e),
        0 <= i,
        i + ser_expr(e).len() <= s.len(),
        s.subrange(i, i + ser_expr(e).len()) == ser_expr(e),
        i + ser_expr(e).len() == s.len() || !is_alnum(s[i + ser_expr(e).len()]),
    ensures
        spec_node(s, i) == Ok::<_, SpecErr>((SpecNode::Expr(e), i + ser_expr(e).len())),
    decreases e, 1int,
{
    let ser = ser_expr(e);
    let n = ser.len() as int;
    lemma_ser_first(e);
    assert(s[i] == s.subrange(i, i + n)[0]);
    assert(s[i] == ser[0]);
    assert(skip_ws(s, i) == i);
    match e {
        SpecExpr::Tuple(items) => {
            let bl = ser_items(items).len() as int;
            assert(s.subrange(i + 1, i + 1 + bl + 1) =~= ser_items(items) + seq![0x29u8]) by {
                assert forall|k: int| 0 <= k < bl + 1 implies s.subrange(
                    i + 1,
                    i + 1 + bl + 1,
                )[k] == (ser_items(items) + seq![0x29u8])[k] by {
                    assert(s.subrange(i + 1, i + 1 + bl + 1)[k] == s.subrange(i, i + n)[k + 1]);
                }
            }
            lemma_tuple_ser(items, s, i + 1);
        },
        SpecExpr::Quoted(cs) => {
            let bs = encode_utf8(cs);
            let esc = esc_bytes(bs, 0x22);
            assert(s.subrange(i + 1, i + 1 + esc.len() + 1) =~= esc + seq![0x22u8]) by {
                assert forall|k: int| 0 <= k < esc.len() + 1 implies s.subrange(
                    i + 1,
                    i + 1 + esc.len() + 1,
                )[k] == (esc + seq![0x22u8])[k] by {
                    assert(s.subrange(i + 1, i + 1 + esc.len() + 1)[k] == s.subrange(
                        i,
                        i + n,
                    )[k + 1]);
                }
            }
            lemma_quoted_body_ser(bs, 0x22, s, i + 1);
            encode_utf8_valid_utf8(cs);
            encode_utf8_decode_utf8(cs);
        },
        SpecExpr::Backquoted(cs) => {
            let bs = encode_utf8(cs);
            let esc = esc_bytes(bs, 0x60);
            assert(s.subrange(i + 1, i + 1 + esc.len() + 1) =~= esc + seq![0x60u8]) by {
                assert forall|k: int| 0 <= k < esc.len() + 1 implies s.subrange(
                    i + 1,
                    i + 1 + esc.len() + 1,
                )[k] == (esc + seq![0x60u8])[k] by {
                    assert(s.subrange(i + 1, i + 1 + esc.len() + 1)[k] == s.subrange(
                        i,
                        i + n,
                    )[k + 1]);
                }
            }
            lemma_quoted_body_ser(bs, 0x60, s, i + 1);
            encode_utf8_valid_utf8(cs);
            encode_utf8_decode_utf8(cs);
        },
        SpecExpr::Integer(nv) => {
            lemma_dec_digits_ascii(nv as nat);
            assert forall|k: int| i + 1 <= k < i + n implies is_digit(#[trigger] s[k]) by {
                assert(s[k] == s.subrange(i, i + n)[k - i]);
                assert(ser[k - i] == dec_digits(nv as nat)[k - i]);
            }
            assert(i + n == s.len() || !is_digit(s[i + n]));
            lemma_number_run(s, i + 1, i + n, (s[i] - 0x30) as u32);
            lemma_digits_acc_exact(nv);
            assert(s.subrange(i + 1, i + n) =~= dec_digits(nv as nat).drop_first()) by {
                assert forall|k: int| 0 <= k < n - 1 implies s.subrange(i + 1, i + n)[k]
                    == dec_digits(nv as nat).drop_first()[k] by {
                    assert(s.subrange(i + 1, i + n)[k] == s.subrange(i, i + n)[k + 1]);
                }
            }
            assert(digits_acc(dec_digits(nv as nat), 0) == digits_acc(
                dec_digits(nv as nat).drop_first(),
                ((0 * 10 + (dec_digits(nv as nat)[0] - 0x30)) % 0x1_0000_0000) as u32,
            ));
            assert(dec_digits(nv as nat)[0] == s[i]);
            assert(0x30 <= s[i] <= 0x39);
            assert(((0 * 10 + (s[i] - 0x30)) % 0x1_0000_0000) as u32 == (s[i] - 0x30) as u32);
        },
        SpecExpr::Literal(cs) => {
            lemma_alnum_ascii(cs);
            assert forall|k: int| i + 1 <= k < i + n implies is_alnum(#[trigger] s[k]) by {
                assert(s[k] == s.subrange(i, i + n)[k - i]);
                assert(ser[k - i] == encode_utf8(cs)[k - i]);
            }
            assert(i + n == s.len() || !is_alnum(s[i + n]));
            lemma_literal_run(s, i + 1, i + n);
            assert(seq![s[i]] + s.subrange(i + 1, i + n) =~= ser) by {
                assert forall|k: int| 0 <= k < n implies (seq![s[i]] + s.subrange(i + 1, i + n))[k]
                    == ser[k] by {
                    if k > 0 {
                        assert(s.subrange(i + 1, i + n)[k - 1] == s.subrange(i, i + n)[k]);
                    }
                }
            }
            lemma_alnum_chars_identity(cs);
            assert(crate::grammar::ascii_chars(seq![s[i]] + s.subrange(i + 1, i + n)) == cs);
        },
    }
}

/// Writing any tree whose literals are well formed and reading the text back
/// yields a structurally equal tree, with the whole text consumed.
pub proof fn lemma_round_trip(e: SpecExpr)
    requires
        wf_literals(e),
    ensures
        spec_expression(ser_expr(e), 0) == Ok::<_, SpecErr>((e, ser_expr(e).len() as int)),
{
    let s = ser_expr(e);
    assert(s.subrange(0, s.len() as int) =~= s);
    lemma_node_ser(e, s, 0);
}

/// Escaping distributes over concatenation.
proof fn lemma_esc_concat(a: Seq<u8>, b: Seq<u8>, term: u8)
    ensures
        esc_bytes(a + b, term) == esc_bytes(a, term) + esc_bytes(b, term),
    decreases a.len(),
{
    if a.len() == 0 {
        assert(a + b =~= b);
        assert(esc_bytes(a, term) + esc_bytes(b, term) =~= esc_bytes(b, term));
    } else {
        assert((a + b)[0] == a[0]);
        assert((a + b).drop_first() =~= a.drop_first() + b);
        lemma_esc_concat(a.drop_first(), b, term);
        assert(esc_bytes(a + b, term) =~= esc_bytes(a, term) + esc_bytes(b, term));
    }
}

/// Serialization of elements distributes over concatenation.
proof fn lemma_ser_items_concat(a: Seq<SpecExpr>, b: Seq<SpecExpr>)
    ensures
        ser_items(a + b) == ser_items(a) + ser_items(b),
    decreases a.len(),
{
    if a.len() == 0 {
        assert(a + b =~= b);
        assert(ser_items(a) + ser_items(b) =~= ser_items(b));
    } else {
        assert((a + b)[0] == a[0]);
        assert((a + b).subrange(1, (a + b).len() as int) =~= a.subrange(1, a.len() as int) + b);
        lemma_ser_items_concat(a.subrange(1, a.len() as int), b);
        assert(ser_items(a + b) =~= ser_items(a) + ser_items(b));
    }
}

/// ASCII bytes survive the trip through characters and back.
proof fn lemma_ascii_encode(bs: Seq<u8>)
    requires
        forall|i: int| 0 <= i < bs.len() ==> #[trigger] bs[i] < 0x80,
    ensures
        encode_utf8(crate::grammar::ascii_chars(bs)) == bs,
{
    let cs = crate::grammar::ascii_chars(bs);
    assert forall|i: int| 0 <= i < cs.len() implies '\0' <= #[trigger] cs[i] <= '\u{7f}' by {
        assert(cs[i] == bs[i] as char);
        assert((bs[i] as char) as u32 == bs[i] as u32);
    }
    assert(is_ascii_chars(cs));
    is_ascii_chars_encode_utf8(cs);
    assert forall|i: int| 0 <= i < cs.len() implies encode_utf8(cs)[i] == bs[i] by {
        assert(encode_utf8(cs)[i] == cs[i] as u8);
        assert((bs[i] as char) as u32 == bs[i] as u32);
    }
    assert(encode_utf8(cs) =~= bs);
}

/// Append the escaped bytes of a quoted token's contents.
fn write_escaped(out: &mut Vec<u8>, st: &str, term: u8)
    ensures
        final(out)@ == old(out)@ + esc_bytes(st.spec_bytes(), term),
{
    let bs = st.as_bytes();
    let ghost start = out@;
    let mut k: usize = 0;
    proof {
        assert(bs@.subrange(0, 0) =~= Seq::<u8>::empty());
        assert(start + esc_bytes(bs@.subrange(0, 0), term) =~= start);
    }
    while k < bs.len()
        invariant
            k <= bs@.len(),
            bs@ == st.spec_bytes(),
            out@ == start + esc_bytes(bs@.subrange(0, k as int), term),
        decreases bs@.len() - k,
    {
        let ghost done = bs@.subrange(0, k as int);
        let b = bs[k];
        if b == 0x5c || b == term {
            out.push(0x5c);
            out.push(b);
        } else {
            out.push(b);
        }
        k = k + 1;
        proof {
            assert(bs@.subrange(0, k as int) =~= done + seq![b]);
            lemma_esc_concat(done, seq![b], term);
            assert(seq![b].drop_first() =~= Seq::<u8>::empty());
            if b == 0x5c || b == term {
                assert(esc_bytes(seq![b], term) =~= seq![0x5cu8, b]);
                assert(out@ =~= start + (esc_bytes(done, term) + seq![0x5cu8, b]));
            } else {
                assert(esc_bytes(seq![b], term) =~= seq![b]);
                assert(out@ =~= start + (esc_bytes(done, term) + seq![b]));
            }
        }
    }
    proof {
        assert(bs@.subrange(0, bs@.len() as int) =~= bs@);
    }
}

/// Append the textual form of a tree to `out`.
fn write_expr_into(out: &mut Vec<u8>, e: &Expression)
    ensures
        final(out)@ == old(out)@ + ser_expr(e.model()),
    decreases e,
{
    match e {
        Expression::Tuple(items) => {
            out.push(0x28);
            let ghost start = out@;
            let ghost ms = models(items@);
            let mut i: usize = 0;
            proof {
                crate::sexp::lemma_models_index(items@);
                assert(ms.subrange(0, 0) =~= Seq::<SpecExpr>::empty());
                assert(start + ser_items(ms.subrange(0, 0)) =~= start);
            }
            while i < items.len()
                invariant
                    i <= items@.len(),
                    ms == models(items@),
                    out@ == start + ser_items(ms.subrange(0, i as int)),
                decreases items@.len() - i,
            {
                let ghost done = ms.subrange(0, i as int);
                proof {
                    assert(decreases_to!(items@ => items@[i as int]));
                }
                write_expr_into(out, &items[i]);
                out.push(0x20);
                i = i + 1;
                proof {
                    crate::sexp::lemma_models_index(items@);
                    assert(ms[i - 1] == items@[i - 1].model());
                    assert(ms.subrange(0, i as int) =~= done + seq![ms[i - 1]]);
                    lemma_ser_items_concat(done, seq![ms[i - 1]]);
                    assert(seq![ms[i - 1]].subrange(1, 1) =~= Seq::<SpecExpr>::empty());
                    assert(seq![ms[i - 1]][0] == ms[i - 1]);
                    assert(ser_items(seq![ms[i - 1]]) =~= ser_expr(ms[i - 1]) + seq![0x20u8]);
                    assert(out@ =~= start + (ser_items(done) + (ser_expr(ms[i - 1]) + seq![
                        0x20u8,
                    ])));
                }
            }
            out.push(0x29);
            proof {
                assert(ms.subrange(0, ms.len() as int) =~= ms);
                assert(out@ =~= old(out)@ + (seq![0x28u8] + ser_items(ms) + seq![0x29u8]));
            }
        },
        Expression::Literal(st) => {
            out.extend_from_slice(st.as_str().as_bytes());
            proof {
                assert(out@ =~= old(out)@ + encode_utf8(st@));
            }
        },
        Expression::String(st) => {
            out.push(0x22);
            write_escaped(out, st.as_str(), 0x22);
            out.push(0x22);
            proof {
                assert(out@ =~= old(out)@ + (seq![0x22u8] + esc_bytes(encode_utf8(st@), 0x22)
                    + seq![0x22u8]));
            }
        },
        Expression::BackQuotedString(st) => {
            out.push(0x60);
            write_escaped(out, st.as_str(), 0x60);
            out.push(0x60);
            proof {
                assert(out@ =~= old(out)@ + (seq![0x60u8] + esc_bytes(encode_utf8(st@), 0x60)
                    + seq![0x60u8]));
            }
        },
        Expression::Integer(n) => {
            let ns = crate::text::u32_to_string(*n);
            out.extend_from_slice(ns.as_str().as_bytes());
            proof {
                lemma_dec_digits_ascii(*n as nat);
                lemma_ascii_encode(dec_digits(*n as nat));
                assert(out@ =~= old(out)@ + dec_digits(*n as nat));
            }
        },
    }
}

/// The textual form of a tree, as the grammar reads it.  Reading it back
/// yields a structurally equal tree whenever the tree's literals are well
/// formed ([`lemma_round_trip`]).
pub fn write_expression(e: &Expression) -> (r: Vec<u8>)
    ensures
        r@ == ser_expr(e.model()),
{
    let mut out: Vec<u8> = Vec::new();
    write_expr_into(&mut out, e);
    proof {
        assert(Seq::<u8>::empty() + ser_expr(e.model()) =~= ser_expr(e.model()));
    }
    out
}

} // verus!

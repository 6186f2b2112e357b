//! The markup grammar as a mathematical function from bytes to expression
//! trees.  The executable reader in [`crate::sexp`] is verified against these
//! functions: its result on any input is exactly what they say.
use vstd::prelude::*;
use vstd::utf8::{decode_utf8, valid_utf8};
use crate::sexp::SpecExpr;

verus! {

/// Reading can fail three ways: the source ended inside a token or before one
/// started, a byte appeared where the grammar disallows it, or the bytes of a
/// quoted token are not UTF-8.
pub enum SpecErr {
    Eof,
    Char(u8),
    Utf8,
}

/// One reading step yields either a complete expression or a bare terminator
/// byte (used by the tuple rule to find its closing parenthesis).
pub enum SpecNode {
    Expr(SpecExpr),
    Close(u8),
}

/// ASCII whitespace as the reader skips it: space, tab, newline, form feed,
/// carriage return.
pub open spec fn is_ws(b: u8) -> bool {
    b == 0x20 || b == 0x09 || b == 0x0a || b == 0x0c || b == 0x0d
}

/// ASCII decimal digit.
pub open spec fn is_digit(b: u8) -> bool {
    0x30 <= b <= 0x39
}

/// ASCII letter.
pub open spec fn is_alpha(b: u8) -> bool {
    (0x41 <= b <= 0x5a) || (0x61 <= b <= 0x7a)
}

/// ASCII letter or digit.
pub open spec fn is_alnum(b: u8) -> bool {
    is_digit(b) || is_alpha(b)
}

/// ASCII bytes read as the characters they stand for.
pub open spec fn ascii_chars(b: Seq<u8>) -> Seq<char> {
    b.map_values(|x: u8| x as char)
}

/// The first position at or after `i` holding a non-whitespace byte, or the
/// end of the input.
pub open spec fn skip_ws(s: Seq<u8>, i: int) -> int
    recommends
        0 <= i <= s.len(),
    decreases s.len() - i,
{
    if i < 0 || i >= s.len() {
        i
    } else if is_ws(s[i]) {
        skip_ws(s, i + 1)
    } else {
        i
    }
}

pub proof fn lemma_skip_ws_bounds(s: Seq<u8>, i: int)
    requires
        0 <= i <= s.len(),
    ensures
        i <= skip_ws(s, i) <= s.len(),
        skip_ws(s, i) < s.len() ==> !is_ws(s[skip_ws(s, i)]),
        forall|k: int| i <= k < skip_ws(s, i) ==> is_ws(#[trigger] s[k]),
    decreases s.len() - i,
{
    if i < s.len() && is_ws(s[i]) {
        lemma_skip_ws_bounds(s, i + 1);
    }
}

/// Contents of a quoted token from position `i` up to the unescaped
/// terminator `term`: the raw bytes with escapes resolved, and the position
/// just past the terminator.  A backslash may escape only itself or the
/// terminator; any other escaped byte is rejected, and running out of input
/// first is an end-of-input error.
pub open spec fn spec_quoted_body(s: Seq<u8>, i: int, term: u8) -> Result<(Seq<u8>, int), SpecErr>
    recommends
        0 <= i <= s.len(),
    decreases s.len() - i,
{
    if i < 0 || i >= s.len() {
        Err(SpecErr::Eof)
    } else if s[i] == 0x5c {
        if i + 1 >= s.len() {
            Err(SpecErr::Eof)
        } else if s[i + 1] == 0x5c || s[i + 1] == term {
            match spec_quoted_body(s, i + 2, term) {
                Ok((b, j)) => Ok((seq![s[i + 1]] + b, j)),
                Err(e) => Err(e),
            }
        } else {
            Err(SpecErr::Char(s[i + 1]))
        }
    } else if s[i] == term {
        Ok((Seq::empty(), i + 1))
    } else {
        match spec_quoted_body(s, i + 1, term) {
            Ok((b, j)) => Ok((seq![s[i]] + b, j)),
            Err(e) => Err(e),
        }
    }
}

/// A quoted token as the characters its bytes encode; bytes that are not
/// UTF-8 are rejected.
pub open spec fn spec_quoted(s: Seq<u8>, i: int, term: u8) -> Result<(Seq<char>, int), SpecErr> {
    match spec_quoted_body(s, i, term) {
        Ok((bytes, j)) => if valid_utf8(bytes) {
            Ok((decode_utf8(bytes), j))
        } else {
            Err(SpecErr::Utf8)
        },
        Err(e) => Err(e),
    }
}

/// The run of digits from position `i` folded onto `acc` in base ten,
/// wrapping at 2^32, and the position of the first non-digit.
pub open spec fn spec_number(s: Seq<u8>, i: int, acc: u32) -> (u32, int)
    recommends
        0 <= i <= s.len(),
    decreases s.len() - i,
{
    if 0 <= i < s.len() && is_digit(s[i]) {
        spec_number(s, i + 1, ((acc * 10 + (s[i] - 0x30)) % 0x1_0000_0000) as u32)
    } else {
        (acc, i)
    }
}

/// The run of letters and digits from position `i`, and the position of the
/// first byte past it.
pub open spec fn spec_literal_bytes(s: Seq<u8>, i: int) -> (Seq<u8>, int)
    recommends
        0 <= i <= s.len(),
    decreases s.len() - i,
{
    if 0 <= i < s.len() && is_alnum(s[i]) {
        let (rest, j) = spec_literal_bytes(s, i + 1);
        (seq![s[i]] + rest, j)
    } else {
        (Seq::empty(), i)
    }
}

/// One reading step at position `i`: skip whitespace, then dispatch on the
/// first byte.  `(` opens a tuple, `"` and `` ` `` open quoted tokens, a
/// digit starts an integer, a letter starts a literal, and any other byte is
/// handed back as a bare terminator.  The position returned is the first
/// byte not consumed.
pub open spec fn spec_node(s: Seq<u8>, i: int) -> Result<(SpecNode, int), SpecErr>
    recommends
        0 <= i <= s.len(),
    decreases s.len() - i, 1int,
{
    let j0 = skip_ws(s, i);
    let j = if j0 < i { i } else { j0 };
    if j >= s.len() {
        Err(SpecErr::Eof)
    } else {
        let c = s[j];
        if c == 0x28 {
            match spec_tuple(s, j + 1) {
                Ok((items, k)) => Ok((SpecNode::Expr(SpecExpr::Tuple(items)), k)),
                Err(e) => Err(e),
            }
        } else if c == 0x22 {
            match spec_quoted(s, j + 1, 0x22) {
                Ok((cs, k)) => Ok((SpecNode::Expr(SpecExpr::Quoted(cs)), k)),
                Err(e) => Err(e),
            }
        } else if c == 0x60 {
            match spec_quoted(s, j + 1, 0x60) {
                Ok((cs, k)) => Ok((SpecNode::Expr(SpecExpr::Backquoted(cs)), k)),
                Err(e) => Err(e),
            }
        } else if is_digit(c) {
            let (n, k) = spec_number(s, j + 1, (c - 0x30) as u32);
            Ok((SpecNode::Expr(SpecExpr::Integer(n)), k))
        } else if is_alpha(c) {
            let (bs, k) = spec_literal_bytes(s, j + 1);
            Ok((SpecNode::Expr(SpecExpr::Literal(ascii_chars(seq![c] + bs))), k))
        } else {
            Ok((SpecNode::Close(c), j + 1))
        }
    }
}

/// The elements of a tuple being read from position `i` (just past its
/// opening parenthesis) until a bare `)`; any other bare terminator byte is
/// rejected.  The position returned is just past the closing parenthesis.
pub open spec fn spec_tuple(s: Seq<u8>, i: int) -> Result<(Seq<SpecExpr>, int), SpecErr>
    recommends
        0 <= i <= s.len(),
    decreases s.len() - i, 2int,
{
    if i < 0 || i > s.len() {
        Err(SpecErr::Eof)
    } else {
        match spec_node(s, i) {
        Err(e) => Err(e),
        Ok((SpecNode::Close(c), j)) => if c == 0x29 {
            Ok((Seq::empty(), j))
        } else {
            Err(SpecErr::Char(c))
        },
        Ok((SpecNode::Expr(e), j0)) => {
            if i >= s.len() {
                Err(SpecErr::Eof)
            } else {
                let j = if j0 < i + 1 {
                    i + 1
                } else if j0 > s.len() {
                    s.len() as int
                } else {
                    j0
                };
                match spec_tuple(s, j) {
                    Ok((rest, k)) => Ok((seq![e] + rest, k)),
                    Err(err) => Err(err),
                }
            }
        },
        }
    }
}

/// A complete expression at position `i`: a reading step that yields a bare
/// terminator where an expression is required is an unexpected-character
/// error.
pub open spec fn spec_expression(s: Seq<u8>, i: int) -> Result<(SpecExpr, int), SpecErr> {
    match spec_node(s, i) {
        Ok((SpecNode::Expr(e), j)) => Ok((e, j)),
        Ok((SpecNode::Close(c), _)) => Err(SpecErr::Char(c)),
        Err(e) => Err(e),
    }
}

/// A successful reading step always lands strictly past where it started and
/// within the input, so the clamping in the tuple rule never alters a
/// position that the reader actually produces.
pub proof fn lemma_node_progress(s: Seq<u8>, i: int)
    requires
        0 <= i <= s.len(),
    ensures
        match spec_node(s, i) {
            Ok((_, j)) => i < j <= s.len(),
            Err(_) => true,
        },
    decreases s.len() - i, 1int,
{
    lemma_skip_ws_bounds(s, i);
    let j0 = skip_ws(s, i);
    if j0 < s.len() {
        let c = s[j0];
        if c == 0x28 {
            lemma_tuple_progress(s, j0 + 1);
        } else if c == 0x22 {
            lemma_quoted_body_progress(s, j0 + 1, 0x22);
        } else if c == 0x60 {
            lemma_quoted_body_progress(s, j0 + 1, 0x60);
        } else if is_digit(c) {
            lemma_number_progress(s, j0 + 1, ((c - 0x30) as u32));
        } else if is_alpha(c) {
            lemma_literal_progress(s, j0 + 1);
        }
    }
}

pub proof fn lemma_tuple_progress(s: Seq<u8>, i: int)
    requires
        0 <= i <= s.len(),
    ensures
        match spec_tuple(s, i) {
            Ok((_, j)) => i < j <= s.len(),
            Err(_) => true,
        },
    decreases s.len() - i, 2int,
{
    lemma_node_progress(s, i);
    match spec_node(s, i) {
        Ok((SpecNode::Expr(_), j0)) => {
            lemma_tuple_progress(s, j0);
        },
        _ => {},
    }
}

pub proof fn lemma_quoted_body_progress(s: Seq<u8>, i: int, term: u8)
    requires
        0 <= i <= s.len(),
    ensures
        match spec_quoted_body(s, i, term) {
            Ok((_, j)) => i < j <= s.len(),
            Err(_) => true,
        },
    decreases s.len() - i,
{
    if 0 <= i < s.len() {
        if s[i] == 0x5c {
            if i + 1 < s.len() && (s[i + 1] == 0x5c || s[i + 1] == term) {
                lemma_quoted_body_progress(s, i + 2, term);
            }
        } else if s[i] != term {
            lemma_quoted_body_progress(s, i + 1, term);
        }
    }
}

pub proof fn lemma_number_progress(s: Seq<u8>, i: int, acc: u32)
    requires
        0 <= i <= s.len(),
    ensures
        i <= spec_number(s, i, acc).1 <= s.len(),
    decreases s.len() - i,
{
    if 0 <= i < s.len() && is_digit(s[i]) {
        lemma_number_progress(s, i + 1, ((acc * 10 + (s[i] - 0x30)) % 0x1_0000_0000) as u32);
    }
}

pub proof fn lemma_literal_progress(s: Seq<u8>, i: int)
    requires
        0 <= i <= s.len(),
    ensures
        i <= spec_literal_bytes(s, i).1 <= s.len(),
    decreases s.len() - i,
{
    if 0 <= i < s.len() && is_alnum(s[i]) {
        lemma_literal_progress(s, i + 1);
    }
}

} // verus!

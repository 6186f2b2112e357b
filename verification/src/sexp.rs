//! The expression tree of the diary markup, and the reader that builds it
//! from bytes one character at a time.  Every reading function is verified
//! against the grammar functions in [`crate::grammar`].
use vstd::prelude::*;
use crate::grammar::{
    ascii_chars, is_alnum, is_alpha, is_digit, is_ws, lemma_node_progress, lemma_skip_ws_bounds,
    skip_ws, spec_expression, spec_literal_bytes, spec_node, spec_number, spec_quoted,
    spec_quoted_body, spec_tuple, SpecErr, SpecNode,
};
use crate::string_reader::StringReader;
use crate::text::{lemma_ascii_decode, string_from_utf8};

verus! {

/// A node of the parsed markup tree: a parenthesized tuple, a bareword
/// literal, a double-quoted string, a backquoted code string, or an
/// unsigned integer.
#[derive(Debug, PartialEq, Eq)]
pub enum Expression {
    Tuple(Vec<Expression>),
    Literal(String),
    String(String),
    BackQuotedString(String),
    Integer(u32),
}

/// Mathematical model of an [`Expression`]: the same tree over `Seq`.
pub enum SpecExpr {
    Tuple(Seq<SpecExpr>),
    Literal(Seq<char>),
    Quoted(Seq<char>),
    Backquoted(Seq<char>),
    Integer(u32),
}

impl Expression {
    /// The tree seen as a mathematical value.
    pub open spec fn model(self) -> SpecExpr
        decreases self, 1int,
    {
        match self {
            Expression::Tuple(v) => SpecExpr::Tuple(models(v@)),
            Expression::Literal(s) => SpecExpr::Literal(s@),
            Expression::String(s) => SpecExpr::Quoted(s@),
            Expression::BackQuotedString(s) => SpecExpr::Backquoted(s@),
            Expression::Integer(n) => SpecExpr::Integer(n),
        }
    }
}

/// Lists model element-wise: pushing an element pushes its model.
pub proof fn lemma_models_push(v: Seq<Expression>, e: Expression)
    ensures
        models(v.push(e)) == models(v).push(e.model()),
{
    assert(v.push(e).subrange(0, v.push(e).len() - 1) =~= v);
    assert(v.push(e).last() == e);
}

/// Model of a whole element list at once.
pub open spec fn models(v: Seq<Expression>) -> Seq<SpecExpr>
    decreases v, 0int,
{
    if v.len() == 0 {
        Seq::empty()
    } else {
        models(v.subrange(0, v.len() - 1)).push(v.last().model())
    }
}

/// A model of a slice of the list is the slice of the models.
pub proof fn lemma_models_subrange(v: Seq<Expression>, a: int, b: int)
    requires
        0 <= a <= b <= v.len(),
    ensures
        models(v.subrange(a, b)) == models(v).subrange(a, b),
{
    lemma_models_index(v);
    lemma_models_index(v.subrange(a, b));
    assert forall|i: int| 0 <= i < b - a implies models(v.subrange(a, b))[i] == models(
        v,
    ).subrange(a, b)[i] by {
        assert(v.subrange(a, b)[i] == v[a + i]);
        assert(models(v.subrange(a, b))[i] == v.subrange(a, b)[i].model());
        assert(models(v)[a + i] == v[a + i].model());
    }
    assert(models(v.subrange(a, b)) =~= models(v).subrange(a, b));
}

/// How reading an expression can fail: bad bytes in a quoted token, or a
/// malformed document.
#[derive(Debug, PartialEq, Eq)]
pub enum Error {
    Utf8Error,
    ParseError(ParseError),
}

/// The grammar-level failures: input that ends inside a token or tuple, and
/// a byte where the grammar disallows one.
#[derive(Debug, PartialEq, Eq)]
pub enum ParseError {
    UnexpectedEOF,
    UnexpectedCharacter(u8),
}

impl Error {
    /// The failure seen as a grammar-level value.
    pub open spec fn model(self) -> SpecErr {
        match self {
            Error::Utf8Error => SpecErr::Utf8,
            Error::ParseError(ParseError::UnexpectedEOF) => SpecErr::Eof,
            Error::ParseError(ParseError::UnexpectedCharacter(c)) => SpecErr::Char(c),
        }
    }
}

pub type ParseResult<T> = Result<T, Error>;

/// How viewing a tuple as an application can fail: the tuple is empty, or
/// its head is not a literal keyword.
#[derive(Debug, PartialEq, Eq)]
pub enum ApplicationError {
    MissingOperator,
    HeadIsNotLiteral,
}

pub type ApplicationResult<T> = Result<T, ApplicationError>;

/// View a tuple's elements as a keyword application: the head must be a
/// literal, and becomes the operator; the rest are the operands, in order.
pub fn expect_application(tuple: Vec<Expression>) -> (r: ApplicationResult<
    (String, Vec<Expression>),
>)
    ensures
        match r {
            Ok(p) => ({
                &&& tuple@.len() > 0
                &&& tuple@[0].model() == SpecExpr::Literal(p.0@)
                &&& p.1@ == tuple@.subrange(1, tuple@.len() as int)
            }),
            Err(ApplicationError::MissingOperator) => tuple@.len() == 0,
            Err(ApplicationError::HeadIsNotLiteral) => tuple@.len() > 0 && !(tuple@[0].model()
                is Literal),
        },
{
    let mut rest = tuple;
    if rest.len() == 0 {
        return Err(ApplicationError::MissingOperator);
    }
    let head = rest.remove(0);
    proof {
        assert(rest@ =~= tuple@.subrange(1, tuple@.len() as int));
    }
    match head {
        Expression::Literal(l) => Ok((l, rest)),
        _ => Err(ApplicationError::HeadIsNotLiteral),
    }
}

/// The character-level reader: a cursor over the source and one recursive
/// descent through the grammar.
pub struct SExpParser {
    reader: StringReader,
}

/// What one reading step yields: a complete expression, or a bare terminator
/// byte that closes the surrounding tuple.
enum ExpressionOrChr {
    Expression(Expression),
    Chr(u8),
}

impl SExpParser {
    /// The whole byte source being read.
    pub closed spec fn src(&self) -> Seq<u8> {
        self.reader.src()
    }

    /// How many bytes have been consumed.
    pub closed spec fn cursor(&self) -> int {
        self.reader.cursor()
    }

    /// The cursor stays within the source.
    pub open spec fn wf(&self) -> bool {
        0 <= self.cursor() <= self.src().len()
    }

    pub fn new(reader: StringReader) -> (r: Self)
        ensures
            r.src() == reader.src(),
            r.cursor() == reader.cursor(),
    {
        Self { reader }
    }

    fn chr(&self) -> (r: Option<u8>)
        requires
            self.wf(),
        ensures
            r == if self.cursor() < self.src().len() {
                Some(self.src()[self.cursor()])
            } else {
                None::<u8>
            },
    {
        self.reader.chr()
    }

    fn seek(&mut self)
        requires
            old(self).wf(),
            old(self).cursor() < old(self).src().len(),
        ensures
            final(self).wf(),
            final(self).src() == old(self).src(),
            final(self).cursor() == old(self).cursor() + 1,
    {
        self.reader.seek()
    }

    /// Skip whitespace and peek at the first significant byte; an exhausted
    /// source is an end-of-input error.
    fn roll_up_and_get(&mut self) -> (r: ParseResult<u8>)
        requires
            old(self).wf(),
        ensures
            final(self).wf(),
            final(self).src() == old(self).src(),
            final(self).cursor() == skip_ws(old(self).src(), old(self).cursor()),
            match r {
                Ok(c) => final(self).cursor() < final(self).src().len() && c == final(self).src()[final(self).cursor()],
                Err(e) => e.model() == SpecErr::Eof && final(self).cursor() == final(self).src().len(),
            },
    {
        let ghost s0 = old(self).src();
        let ghost i0 = old(self).cursor();
        loop
            invariant
                self.wf(),
                self.src() == s0,
                skip_ws(self.src(), self.cursor()) == skip_ws(s0, i0),
            decreases self.src().len() - self.cursor(),
        {
            match self.chr() {
                None => {
                    return Err(Error::ParseError(ParseError::UnexpectedEOF));
                },
                Some(c) => {
                    if c == 0x20 || c == 0x09 || c == 0x0a || c == 0x0c || c == 0x0d {
                        self.seek();
                    } else {
                        return Ok(c);
                    }
                },
            }
        }
    }

    /// Accumulate a run of digits onto `initial`'s value in base ten,
    /// wrapping at 2^32 as the source format historically allowed.
    fn parse_number(&mut self, initial: u8) -> (r: ParseResult<Expression>)
        requires
            old(self).wf(),
            is_digit(initial),
        ensures
            final(self).wf(),
            final(self).src() == old(self).src(),
            match r {
                Ok(e) => {
                    let (n, k) = spec_number(
                        old(self).src(),
                        old(self).cursor(),
                        (initial - 0x30) as u32,
                    );
                    e.model() == SpecExpr::Integer(n) && final(self).cursor() == k
                },
                Err(_) => false,
            },
    {
        let ghost s0 = old(self).src();
        let ghost i0 = old(self).cursor();
        let mut result: u32 = (initial - 0x30) as u32;
        loop
            invariant
                self.wf(),
                self.src() == s0,
                spec_number(self.src(), self.cursor(), result) == spec_number(
                    s0,
                    i0,
                    (initial - 0x30) as u32,
                ),
            decreases self.src().len() - self.cursor(),
        {
            match self.chr() {
                Some(c) => {
                    if 0x30 <= c && c <= 0x39 {
                        self.seek();
                        let wide: u64 = (result as u64) * 10 + ((c - 0x30) as u64);
                        result = (wide % 0x1_0000_0000) as u32;
                    } else {
                        return Ok(Expression::Integer(result));
                    }
                },
                None => {
                    return Ok(Expression::Integer(result));
                },
            }
        }
    }

    /// Accumulate a bareword: `initial` (a letter) followed by letters and
    /// digits, ended by the first byte that is neither.
    fn parse_literal(&mut self, initial: u8) -> (r: ParseResult<Expression>)
        requires
            old(self).wf(),
            is_alpha(initial),
        ensures
            final(self).wf(),
            final(self).src() == old(self).src(),
            match r {
                Ok(e) => {
                    let (bs, k) = spec_literal_bytes(old(self).src(), old(self).cursor());
                    e.model() == SpecExpr::Literal(ascii_chars(seq![initial] + bs))
                        && final(self).cursor() == k
                },
                Err(_) => false,
            },
    {
        let ghost s = old(self).src();
        let ghost i0 = old(self).cursor();
        let mut result: Vec<u8> = Vec::new();
        result.push(initial);
        loop
            invariant
                self.wf(),
                self.src() == s,
                forall|k: int| 0 <= k < result@.len() ==> #[trigger] result@[k] < 0x80,
                seq![initial] + spec_literal_bytes(s, i0).0 == result@ + spec_literal_bytes(
                    s,
                    self.cursor(),
                ).0,
                spec_literal_bytes(s, i0).1 == spec_literal_bytes(s, self.cursor()).1,
            decreases self.src().len() - self.cursor(),
        {
            let fin = match self.chr() {
                Some(c) => {
                    if (0x30 <= c && c <= 0x39) || (0x41 <= c && c <= 0x5a) || (0x61 <= c && c
                        <= 0x7a) {
                        result.push(c);
                        self.seek();
                        false
                    } else {
                        true
                    }
                },
                None => true,
            };
            if fin {
                proof {
                    assert(result@ + spec_literal_bytes(s, self.cursor()).0 =~= result@);
                    lemma_ascii_decode(result@);
                }
                let l = string_from_utf8(result).unwrap();
                return Ok(Expression::Literal(l));
            }
        }
    }

    /// The raw contents of a quoted token, escapes resolved, up to the
    /// unescaped terminator byte `term`.
    fn parse_quoted_body(&mut self, term: u8) -> (r: ParseResult<Vec<u8>>)
        requires
            old(self).wf(),
        ensures
            final(self).wf(),
            final(self).src() == old(self).src(),
            match r {
                Ok(bytes) => spec_quoted_body(old(self).src(), old(self).cursor(), term)
                    == Ok::<_, SpecErr>((bytes@, final(self).cursor())),
                Err(e) => spec_quoted_body(old(self).src(), old(self).cursor(), term) == Err::<
                    (Seq<u8>, int),
                    _,
                >(e.model()),
            },
    {
        let ghost s = old(self).src();
        let ghost i0 = old(self).cursor();
        let mut result: Vec<u8> = Vec::new();
        proof {
            if spec_quoted_body(s, i0, term) is Ok {
                let p = spec_quoted_body(s, i0, term)->Ok_0;
                assert(Seq::<u8>::empty() + p.0 =~= p.0);
            }
        }
        loop
            invariant
                self.wf(),
                self.src() == s,
                match spec_quoted_body(s, self.cursor(), term) {
                    Ok((b, j)) => spec_quoted_body(s, i0, term) == Ok::<_, SpecErr>((
                        result@ + b,
                        j,
                    )),
                    Err(e) => spec_quoted_body(s, i0, term) == Err::<(Seq<u8>, int), SpecErr>(e),
                },
            decreases self.src().len() - self.cursor(),
        {
            let ghost r0 = result@;
            let ghost cur0 = self.cursor();
            match self.chr() {
                None => {
                    return Err(Error::ParseError(ParseError::UnexpectedEOF));
                },
                Some(c) => {
                    if c == 0x5c {
                        self.seek();
                        match self.chr() {
                            Some(c2) => {
                                if c2 == 0x5c || c2 == term {
                                    result.push(c2);
                                    self.seek();
                                    proof {
                                        if spec_quoted_body(s, cur0 + 2, term) is Ok {
                                            let p = spec_quoted_body(s, cur0 + 2, term)->Ok_0;
                                            assert(r0.push(c2) + p.0 =~= r0 + (seq![c2] + p.0));
                                        }
                                    }
                                } else {
                                    return Err(
                                        Error::ParseError(ParseError::UnexpectedCharacter(c2)),
                                    );
                                }
                            },
                            None => {
                                // the source ended just after the backslash; the
                                // next pass of the loop reports the end of input
                            },
                        }
                    } else if c == term {
                        self.seek();
                        proof {
                            assert(result@ + Seq::<u8>::empty() =~= result@);
                        }
                        return Ok(result);
                    } else {
                        result.push(c);
                        self.seek();
                        proof {
                            if spec_quoted_body(s, cur0 + 1, term) is Ok {
                                let p = spec_quoted_body(s, cur0 + 1, term)->Ok_0;
                                assert(r0.push(c) + p.0 =~= r0 + (seq![c] + p.0));
                            }
                        }
                    }
                },
            }
        }
    }

    /// A double-quoted string token, read after its opening quote.
    fn parse_string(&mut self) -> (r: ParseResult<Expression>)
        requires
            old(self).wf(),
        ensures
            final(self).wf(),
            final(self).src() == old(self).src(),
            match r {
                Ok(e) => ({
                    &&& spec_quoted(old(self).src(), old(self).cursor(), 0x22) matches Ok(p)
                    &&& e.model() == SpecExpr::Quoted(p.0)
                    &&& final(self).cursor() == p.1
                }),
                Err(err) => spec_quoted(old(self).src(), old(self).cursor(), 0x22) == Err::<
                    (Seq<char>, int),
                    _,
                >(err.model()),
            },
    {
        let bytes = match self.parse_quoted_body(0x22) {
            Ok(b) => b,
            Err(e) => {
                return Err(e);
            },
        };
        match string_from_utf8(bytes) {
            Some(st) => Ok(Expression::String(st)),
            None => Err(Error::Utf8Error),
        }
    }

    /// A backquoted code-string token, read after its opening backquote.
    fn parse_backquoted_string(&mut self) -> (r: ParseResult<Expression>)
        requires
            old(self).wf(),
        ensures
            final(self).wf(),
            final(self).src() == old(self).src(),
            match r {
                Ok(e) => ({
                    &&& spec_quoted(old(self).src(), old(self).cursor(), 0x60) matches Ok(p)
                    &&& e.model() == SpecExpr::Backquoted(p.0)
                    &&& final(self).cursor() == p.1
                }),
                Err(err) => spec_quoted(old(self).src(), old(self).cursor(), 0x60) == Err::<
                    (Seq<char>, int),
                    _,
                >(err.model()),
            },
    {
        let bytes = match self.parse_quoted_body(0x60) {
            Ok(b) => b,
            Err(e) => {
                return Err(e);
            },
        };
        match string_from_utf8(bytes) {
            Some(st) => Ok(Expression::BackQuotedString(st)),
            None => Err(Error::Utf8Error),
        }
    }

    /// One reading step: an expression, or the bare terminator byte that the
    /// enclosing tuple is waiting for.
    fn parse_expression_or_chr(&mut self) -> (r: ParseResult<ExpressionOrChr>)
        requires
            old(self).wf(),
        ensures
            final(self).wf(),
            final(self).src() == old(self).src(),
            match r {
                Ok(ExpressionOrChr::Expression(e)) => ({
                    &&& spec_node(old(self).src(), old(self).cursor()) matches Ok(p)
                    &&& p.0 == SpecNode::Expr(e.model())
                    &&& final(self).cursor() == p.1
                }),
                Ok(ExpressionOrChr::Chr(c)) => ({
                    &&& spec_node(old(self).src(), old(self).cursor()) matches Ok(p)
                    &&& p.0 == SpecNode::Close(c)
                    &&& final(self).cursor() == p.1
                }),
                Err(e) => spec_node(old(self).src(), old(self).cursor()) == Err::<
                    (SpecNode, int),
                    _,
                >(e.model()),
            },
        decreases old(self).src().len() - old(self).cursor(), 1int,
    {
        let ghost s = old(self).src();
        let ghost i0 = old(self).cursor();
        proof {
            lemma_skip_ws_bounds(s, i0);
        }
        let c = match self.roll_up_and_get() {
            Ok(c) => c,
            Err(e) => {
                return Err(e);
            },
        };
        self.seek();
        if c == 0x28 {
            match self.parse_tuple() {
                Ok(e) => Ok(ExpressionOrChr::Expression(e)),
                Err(e) => Err(e),
            }
        } else if c == 0x22 {
            match self.parse_string() {
                Ok(e) => Ok(ExpressionOrChr::Expression(e)),
                Err(e) => Err(e),
            }
        } else if c == 0x60 {
            match self.parse_backquoted_string() {
                Ok(e) => Ok(ExpressionOrChr::Expression(e)),
                Err(e) => Err(e),
            }
        } else if 0x30 <= c && c <= 0x39 {
            match self.parse_number(c) {
                Ok(e) => Ok(ExpressionOrChr::Expression(e)),
                Err(e) => Err(e),
            }
        } else if (0x41 <= c && c <= 0x5a) || (0x61 <= c && c <= 0x7a) {
            match self.parse_literal(c) {
                Ok(e) => Ok(ExpressionOrChr::Expression(e)),
                Err(e) => Err(e),
            }
        } else {
            Ok(ExpressionOrChr::Chr(c))
        }
    }

    /// The elements of a tuple, read after its opening parenthesis up to the
    /// bare `)` that closes it.
    fn parse_tuple(&mut self) -> (r: ParseResult<Expression>)
        requires
            old(self).wf(),
        ensures
            final(self).wf(),
            final(self).src() == old(self).src(),
            match r {
                Ok(e) => ({
                    &&& spec_tuple(old(self).src(), old(self).cursor()) matches Ok(p)
                    &&& e.model() == SpecExpr::Tuple(p.0)
                    &&& final(self).cursor() == p.1
                }),
                Err(err) => spec_tuple(old(self).src(), old(self).cursor()) == Err::<
                    (Seq<SpecExpr>, int),
                    _,
                >(err.model()),
            },
        decreases old(self).src().len() - old(self).cursor(), 2int,
    {
        let ghost s = old(self).src();
        let ghost i0 = old(self).cursor();
        let mut result: Vec<Expression> = Vec::new();
        proof {
            if spec_tuple(s, i0) is Ok {
                let p = spec_tuple(s, i0)->Ok_0;
                assert(models(Seq::<Expression>::empty()) + p.0 =~= p.0);
            }
        }
        loop
            invariant
                self.wf(),
                self.src() == s,
                self.cursor() >= i0,
                match spec_tuple(s, self.cursor()) {
                    Ok((rest, k)) => spec_tuple(s, i0) == Ok::<_, SpecErr>((
                        models(result@) + rest,
                        k,
                    )),
                    Err(e) => spec_tuple(s, i0) == Err::<(Seq<SpecExpr>, int), SpecErr>(e),
                },
            decreases self.src().len() - self.cursor(),
        {
            let ghost cur0 = self.cursor();
            let ghost res0 = result@;
            let node = match self.parse_expression_or_chr() {
                Ok(n) => n,
                Err(e) => {
                    return Err(e);
                },
            };
            match node {
                ExpressionOrChr::Expression(e) => {
                    proof {
                        lemma_node_progress(s, cur0);
                        lemma_models_push(res0, e);
                        if spec_tuple(s, self.cursor()) is Ok {
                            let p = spec_tuple(s, self.cursor())->Ok_0;
                            assert(models(res0).push(e.model()) + p.0 =~= models(res0) + (seq![
                                e.model(),
                            ] + p.0));
                        }
                    }
                    result.push(e);
                },
                ExpressionOrChr::Chr(c) => {
                    if c == 0x29 {
                        proof {
                            assert(models(result@) + Seq::<SpecExpr>::empty() =~= models(
                                result@,
                            ));
                        }
                        return Ok(Expression::Tuple(result));
                    } else {
                        return Err(Error::ParseError(ParseError::UnexpectedCharacter(c)));
                    }
                },
            }
        }
    }

    /// Read one complete expression; a bare terminator byte here, outside any
    /// tuple, is an unexpected character.
    pub fn parse_expression(&mut self) -> (r: ParseResult<Expression>)
        requires
            old(self).wf(),
        ensures
            final(self).wf(),
            final(self).src() == old(self).src(),
            match r {
                Ok(e) => ({
                    &&& spec_expression(old(self).src(), old(self).cursor()) matches Ok(p)
                    &&& p.0 == e.model()
                    &&& final(self).cursor() == p.1
                }),
                Err(err) => spec_expression(old(self).src(), old(self).cursor()) == Err::<
                    (SpecExpr, int),
                    _,
                >(err.model()),
            },
    {
        match self.parse_expression_or_chr() {
            Ok(ExpressionOrChr::Expression(e)) => Ok(e),
            Ok(ExpressionOrChr::Chr(c)) => Err(
                Error::ParseError(ParseError::UnexpectedCharacter(c)),
            ),
            Err(e) => Err(e),
        }
    }
}

/// `models` is the element-wise model.
pub proof fn lemma_models_index(v: Seq<Expression>)
    ensures
        models(v).len() == v.len(),
        forall|i: int| 0 <= i < v.len() ==> models(v)[i] == #[trigger] v[i].model(),
    decreases v.len(),
{
    if v.len() > 0 {
        lemma_models_index(v.subrange(0, v.len() - 1));
        assert forall|i: int| 0 <= i < v.len() implies models(v)[i] == #[trigger] v[i].model() by {
            if i < v.len() - 1 {
                assert(v.subrange(0, v.len() - 1)[i] == v[i]);
            }
        }
    }
}

} // verus!

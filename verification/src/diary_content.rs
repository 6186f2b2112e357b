//! The typed document model of a diary entry, and the semantic resolver that
//! builds it from a parsed expression tree by keyword dispatch.  Every
//! resolving function is verified against the spec functions of this module:
//! resolution is a mathematical function of the input tree.
use vstd::prelude::*;
use vstd::view::DeepView;
use crate::sexp::{expect_application, ApplicationError, Expression, SpecExpr};
use crate::syntax_error::{Error, ParseResult, SpecSynErr};
use crate::text::kw;

verus! {

/// A resolved diary entry: an ordered sequence of block-level items.  The
/// type of the image payload is `T`: a raw filename as resolved from the
/// markup, an asset descriptor after the image pass has run.
#[derive(Debug, PartialEq, Eq)]
pub struct Document<T> {
    contents: Vec<Item<T>>,
}

pub type SourceDoucument = Document<String>;

/// A block-level node: a paragraph of text spans, an ordered list, a
/// header, or an image gallery.
#[derive(Debug, PartialEq, Eq)]
pub enum Item<T> {
    Text(Text),
    List(Vec<Item<T>>),
    Header(String),
    Images(Images<T>),
}

pub type SourceItem = Item<String>;

pub type Text = Vec<TextItem>;

/// An inline unit of a paragraph: raw text, bold text, a web link, a
/// cross-reference to another day's page, or a code span.
#[derive(Debug, PartialEq, Eq)]
pub enum TextItem {
    RawString(String),
    Bold(String),
    WebLink(WebLink),
    PostLink((u32, u32, u32)),
    Code(String),
}

/// A titled link to an outside page.
#[derive(Debug, PartialEq, Eq)]
pub struct WebLink {
    pub title: String,
    pub href: String,
}

/// A titled image gallery.
#[derive(Debug, PartialEq, Eq)]
pub struct Images<T> {
    pub title: String,
    pub items: Vec<ImageItem<T>>,
}

/// One gallery entry: the image payload and an optional caption.
#[derive(Debug, PartialEq, Eq)]
pub struct ImageItem<T> {
    pub data: T,
    pub caption: Option<String>,
}

/// Mathematical model of an [`Item`], over the model `TV` of the image
/// payload.
pub enum SpecItem<TV> {
    Text(Seq<SpecTextItem>),
    List(Seq<SpecItem<TV>>),
    Header(Seq<char>),
    Images(SpecImages<TV>),
}

/// Mathematical model of a [`TextItem`].
pub enum SpecTextItem {
    RawString(Seq<char>),
    Bold(Seq<char>),
    WebLink(Seq<char>, Seq<char>),
    PostLink((u32, u32, u32)),
    Code(Seq<char>),
}

/// Mathematical model of [`Images`].
pub struct SpecImages<TV> {
    pub title: Seq<char>,
    pub items: Seq<SpecImageItem<TV>>,
}

/// Mathematical model of an [`ImageItem`].
pub struct SpecImageItem<TV> {
    pub data: TV,
    pub caption: Option<Seq<char>>,
}

impl TextItem {
    /// The span seen as a mathematical value.
    pub open spec fn model(self) -> SpecTextItem {
        match self {
            TextItem::RawString(s) => SpecTextItem::RawString(s@),
            TextItem::Bold(s) => SpecTextItem::Bold(s@),
            TextItem::WebLink(l) => SpecTextItem::WebLink(l.title@, l.href@),
            TextItem::PostLink(d) => SpecTextItem::PostLink(d),
            TextItem::Code(s) => SpecTextItem::Code(s@),
        }
    }
}

/// Model of a span list, element-wise.
pub open spec fn text_models(v: Seq<TextItem>) -> Seq<SpecTextItem> {
    Seq::new(v.len(), |i: int| v[i].model())
}

impl<T: DeepView> ImageItem<T> {
    /// The gallery entry seen as a mathematical value.
    pub open spec fn model(self) -> SpecImageItem<T::V> {
        SpecImageItem {
            data: self.data.deep_view(),
            caption: match self.caption {
                Some(c) => Some(c@),
                None => None,
            },
        }
    }
}

/// Model of a gallery entry list, element-wise.
pub open spec fn image_items_model<T: DeepView>(v: Seq<ImageItem<T>>) -> Seq<SpecImageItem<T::V>> {
    Seq::new(v.len(), |i: int| v[i].model())
}

impl<T: DeepView> Images<T> {
    /// The gallery seen as a mathematical value.
    pub open spec fn model(self) -> SpecImages<T::V> {
        SpecImages { title: self.title@, items: image_items_model(self.items@) }
    }
}

impl<T: DeepView> Item<T> {
    /// The item seen as a mathematical value.
    pub open spec fn model(self) -> SpecItem<T::V>
        decreases self, 1int,
    {
        match self {
            Item::Text(txt) => SpecItem::Text(text_models(txt@)),
            Item::List(items) => SpecItem::List(items_model(items@)),
            Item::Header(s) => SpecItem::Header(s@),
            Item::Images(im) => SpecItem::Images(im.model()),
        }
    }
}

/// Model of an item list, element-wise.
pub open spec fn items_model<T: DeepView>(v: Seq<Item<T>>) -> Seq<SpecItem<T::V>>
    decreases v, 0int,
{
    if v.len() == 0 {
        Seq::empty()
    } else {
        items_model(v.subrange(0, v.len() - 1)).push(v.last().model())
    }
}

/// `items_model` is the element-wise model.
pub proof fn lemma_items_model_index<T: DeepView>(v: Seq<Item<T>>)
    ensures
        items_model(v).len() == v.len(),
        forall|i: int| 0 <= i < v.len() ==> items_model(v)[i] == #[trigger] v[i].model(),
    decreases v.len(),
{
    if v.len() > 0 {
        lemma_items_model_index(v.subrange(0, v.len() - 1));
        assert forall|i: int| 0 <= i < v.len() implies items_model(v)[i]
            == #[trigger] v[i].model() by {
            if i < v.len() - 1 {
                assert(v.subrange(0, v.len() - 1)[i] == v[i]);
            }
        }
    }
}

/// Pushing an item pushes its model.
pub proof fn lemma_items_model_push<T: DeepView>(v: Seq<Item<T>>, e: Item<T>)
    ensures
        items_model(v.push(e)) == items_model(v).push(e.model()),
{
    assert(v.push(e).subrange(0, v.push(e).len() - 1) =~= v);
    assert(v.push(e).last() == e);
}

impl<T: DeepView> Document<T> {
    /// The items the document holds, as a sequence.
    pub closed spec fn spec_contents(self) -> Seq<Item<T>> {
        self.contents@
    }

    /// The document seen as a mathematical value.
    pub open spec fn model(self) -> Seq<SpecItem<T::V>> {
        items_model(self.spec_contents())
    }

    pub fn new(contents: Vec<Item<T>>) -> (r: Self)
        ensures
            r.spec_contents() == contents@,
    {
        Document { contents }
    }

    pub fn contents(&self) -> (r: &Vec<Item<T>>)
        ensures
            r@ == self.spec_contents(),
    {
        &self.contents
    }

    pub fn into_contents(self) -> (r: Vec<Item<T>>)
        ensures
            r@ == self.spec_contents(),
    {
        self.contents
    }
}

/// The operator and operands of a tuple's element list viewed as a keyword
/// application: the head must be a literal keyword.
pub open spec fn spec_application(items: Seq<SpecExpr>) -> Result<
    (Seq<char>, Seq<SpecExpr>),
    SpecSynErr,
> {
    if items.len() == 0 {
        Err(SpecSynErr::MissingOperator)
    } else {
        match items[0] {
            SpecExpr::Literal(l) => Ok((l, items.subrange(1, items.len() as int))),
            _ => Err(SpecSynErr::IllegalElement),
        }
    }
}

/// Exactly one quoted-string operand, pulled positionally: too few or too
/// many operands is an operand-count error, a present operand of the wrong
/// variant an illegal element.
pub open spec fn spec_one_string(rands: Seq<SpecExpr>) -> Result<Seq<char>, SpecSynErr> {
    if rands.len() == 0 {
        Err(SpecSynErr::OperandMismatch)
    } else {
        match rands[0] {
            SpecExpr::Quoted(s) => if rands.len() == 1 {
                Ok(s)
            } else {
                Err(SpecSynErr::OperandMismatch)
            },
            _ => Err(SpecSynErr::IllegalElement),
        }
    }
}

/// Exactly two quoted-string operands, pulled positionally in order.
pub open spec fn spec_two_strings(rands: Seq<SpecExpr>) -> Result<
    (Seq<char>, Seq<char>),
    SpecSynErr,
> {
    if rands.len() == 0 {
        Err(SpecSynErr::OperandMismatch)
    } else {
        match rands[0] {
            SpecExpr::Quoted(a) => if rands.len() == 1 {
                Err(SpecSynErr::OperandMismatch)
            } else {
                match rands[1] {
                    SpecExpr::Quoted(b) => if rands.len() == 2 {
                        Ok((a, b))
                    } else {
                        Err(SpecSynErr::OperandMismatch)
                    },
                    _ => Err(SpecSynErr::IllegalElement),
                }
            },
            _ => Err(SpecSynErr::IllegalElement),
        }
    }
}

/// Exactly three integer operands, pulled positionally in order.
pub open spec fn spec_three_integers(rands: Seq<SpecExpr>) -> Result<
    (u32, u32, u32),
    SpecSynErr,
> {
    if rands.len() == 0 {
        Err(SpecSynErr::OperandMismatch)
    } else {
        match rands[0] {
            SpecExpr::Integer(a) => if rands.len() == 1 {
                Err(SpecSynErr::OperandMismatch)
            } else {
                match rands[1] {
                    SpecExpr::Integer(b) => if rands.len() == 2 {
                        Err(SpecSynErr::OperandMismatch)
                    } else {
                        match rands[2] {
                            SpecExpr::Integer(c) => if rands.len() == 3 {
                                Ok((a, b, c))
                            } else {
                                Err(SpecSynErr::OperandMismatch)
                            },
                            _ => Err(SpecSynErr::IllegalElement),
                        }
                    },
                    _ => Err(SpecSynErr::IllegalElement),
                }
            },
            _ => Err(SpecSynErr::IllegalElement),
        }
    }
}

/// One inline span: a bare quoted string is raw text, a bare code string a
/// code span, and a tuple dispatches on its keyword (`a` web link, `b` bold,
/// `p` post reference, `code` code span).
pub open spec fn resolve_text_item(e: SpecExpr) -> Result<SpecTextItem, SpecSynErr> {
    match e {
        SpecExpr::Quoted(s) => Ok(SpecTextItem::RawString(s)),
        SpecExpr::Backquoted(s) => Ok(SpecTextItem::Code(s)),
        SpecExpr::Tuple(items) => match spec_application(items) {
            Err(err) => Err(err),
            Ok((op, rands)) => if op == "a"@ {
                match spec_two_strings(rands) {
                    Ok((t, h)) => Ok(SpecTextItem::WebLink(t, h)),
                    Err(err) => Err(err),
                }
            } else if op == "b"@ {
                match spec_one_string(rands) {
                    Ok(s) => Ok(SpecTextItem::Bold(s)),
                    Err(err) => Err(err),
                }
            } else if op == "p"@ {
                match spec_three_integers(rands) {
                    Ok(d) => Ok(SpecTextItem::PostLink(d)),
                    Err(err) => Err(err),
                }
            } else if op == "code"@ {
                match spec_one_string(rands) {
                    Ok(s) => Ok(SpecTextItem::Code(s)),
                    Err(err) => Err(err),
                }
            } else {
                Err(SpecSynErr::UnknownOperator(op))
            },
        },
        _ => Err(SpecSynErr::IllegalElement),
    }
}

/// The spans of a paragraph, resolved left to right; the first failure is
/// the paragraph's failure.
pub open spec fn resolve_text_items(items: Seq<SpecExpr>) -> Result<Seq<SpecTextItem>, SpecSynErr>
    decreases items.len(),
{
    if items.len() == 0 {
        Ok(Seq::empty())
    } else {
        match resolve_text_item(items[0]) {
            Err(err) => Err(err),
            Ok(t) => match resolve_text_items(items.subrange(1, items.len() as int)) {
                Err(err) => Err(err),
                Ok(rest) => Ok(seq![t] + rest),
            },
        }
    }
}

/// One gallery entry: a tuple holding the image path and an optional
/// caption, both quoted strings.
pub open spec fn resolve_image_item(e: SpecExpr) -> Result<SpecImageItem<Seq<char>>, SpecSynErr> {
    match e {
        SpecExpr::Tuple(items) => if items.len() == 0 {
            Err(SpecSynErr::OperandMismatch)
        } else {
            match items[0] {
                SpecExpr::Quoted(path) => if items.len() == 1 {
                    Ok(SpecImageItem { data: path, caption: None })
                } else if items.len() == 2 {
                    match items[1] {
                        SpecExpr::Quoted(c) => Ok(SpecImageItem { data: path, caption: Some(c) }),
                        _ => Err(SpecSynErr::IllegalElement),
                    }
                } else {
                    Err(SpecSynErr::OperandMismatch)
                },
                _ => Err(SpecSynErr::IllegalElement),
            }
        },
        _ => Err(SpecSynErr::IllegalElement),
    }
}

/// The entries of a gallery, resolved left to right.
pub open spec fn resolve_image_items(items: Seq<SpecExpr>) -> Result<
    Seq<SpecImageItem<Seq<char>>>,
    SpecSynErr,
>
    decreases items.len(),
{
    if items.len() == 0 {
        Ok(Seq::empty())
    } else {
        match resolve_image_item(items[0]) {
            Err(err) => Err(err),
            Ok(t) => match resolve_image_items(items.subrange(1, items.len() as int)) {
                Err(err) => Err(err),
                Ok(rest) => Ok(seq![t] + rest),
            },
        }
    }
}

/// An image gallery: a quoted title, then the gallery entries.
pub open spec fn resolve_image(rands: Seq<SpecExpr>) -> Result<SpecItem<Seq<char>>, SpecSynErr> {
    if rands.len() == 0 {
        Err(SpecSynErr::OperandMismatch)
    } else {
        match rands[0] {
            SpecExpr::Quoted(title) => match resolve_image_items(
                rands.subrange(1, rands.len() as int),
            ) {
                Ok(items) => Ok(SpecItem::Images(SpecImages { title, items })),
                Err(err) => Err(err),
            },
            _ => Err(SpecSynErr::IllegalElement),
        }
    }
}

/// A top-level item: a bare quoted string or code string is an implicit
/// one-span paragraph; a tuple dispatches on its keyword (`h`/`header`,
/// `txt`/`text`, `li`/`list`, `img`/`image`).
pub open spec fn resolve_top_item(e: SpecExpr) -> Result<SpecItem<Seq<char>>, SpecSynErr>
    decreases e, 1int,
{
    match e {
        SpecExpr::Quoted(s) => Ok(SpecItem::Text(seq![SpecTextItem::RawString(s)])),
        SpecExpr::Backquoted(s) => Ok(SpecItem::Text(seq![SpecTextItem::Code(s)])),
        SpecExpr::Tuple(items) => if items.len() == 0 {
            Err(SpecSynErr::MissingOperator)
        } else if !(items[0] is Literal) {
            Err(SpecSynErr::IllegalElement)
        } else {
            let op = items[0]->Literal_0;
            let rands = items.subrange(1, items.len() as int);
            if op == "h"@ || op == "header"@ {
                match spec_one_string(rands) {
                    Ok(s) => Ok(SpecItem::Header(s)),
                    Err(err) => Err(err),
                }
            } else if op == "txt"@ || op == "text"@ {
                match resolve_text_items(rands) {
                    Ok(ts) => Ok(SpecItem::Text(ts)),
                    Err(err) => Err(err),
                }
            } else if op == "li"@ || op == "list"@ {
                match resolve_list_items(rands) {
                    Ok(its) => Ok(SpecItem::List(its)),
                    Err(err) => Err(err),
                }
            } else if op == "img"@ || op == "image"@ {
                resolve_image(rands)
            } else {
                Err(SpecSynErr::UnknownOperator(op))
            }
        },
        _ => Err(SpecSynErr::IllegalElement),
    }
}

/// A list member: the top-level item grammar, except that a header here is a
/// modeling contradiction and is rejected as an illegal element.
pub open spec fn resolve_list_item(e: SpecExpr) -> Result<SpecItem<Seq<char>>, SpecSynErr>
    decreases e, 1int,
{
    match e {
        SpecExpr::Quoted(s) => Ok(SpecItem::Text(seq![SpecTextItem::RawString(s)])),
        SpecExpr::Backquoted(s) => Ok(SpecItem::Text(seq![SpecTextItem::Code(s)])),
        SpecExpr::Tuple(items) => if items.len() == 0 {
            Err(SpecSynErr::MissingOperator)
        } else if !(items[0] is Literal) {
            Err(SpecSynErr::IllegalElement)
        } else {
            let op = items[0]->Literal_0;
            let rands = items.subrange(1, items.len() as int);
            if op == "h"@ || op == "header"@ {
                Err(SpecSynErr::IllegalElement)
            } else if op == "txt"@ || op == "text"@ {
                match resolve_text_items(rands) {
                    Ok(ts) => Ok(SpecItem::Text(ts)),
                    Err(err) => Err(err),
                }
            } else if op == "li"@ || op == "list"@ {
                match resolve_list_items(rands) {
                    Ok(its) => Ok(SpecItem::List(its)),
                    Err(err) => Err(err),
                }
            } else if op == "img"@ || op == "image"@ {
                resolve_image(rands)
            } else {
                Err(SpecSynErr::UnknownOperator(op))
            }
        },
        _ => Err(SpecSynErr::IllegalElement),
    }
}

/// The members of a list, resolved left to right.
pub open spec fn resolve_list_items(items: Seq<SpecExpr>) -> Result<
    Seq<SpecItem<Seq<char>>>,
    SpecSynErr,
>
    decreases items, 0int,
{
    if items.len() == 0 {
        Ok(Seq::empty())
    } else {
        match resolve_list_item(items[0]) {
            Err(err) => Err(err),
            Ok(t) => match resolve_list_items(items.subrange(1, items.len() as int)) {
                Err(err) => Err(err),
                Ok(rest) => Ok(seq![t] + rest),
            },
        }
    }
}

/// The top-level items of a document, resolved left to right.
pub open spec fn resolve_top_items(items: Seq<SpecExpr>) -> Result<
    Seq<SpecItem<Seq<char>>>,
    SpecSynErr,
>
    decreases items.len(),
{
    if items.len() == 0 {
        Ok(Seq::empty())
    } else {
        match resolve_top_item(items[0]) {
            Err(err) => Err(err),
            Ok(t) => match resolve_top_items(items.subrange(1, items.len() as int)) {
                Err(err) => Err(err),
                Ok(rest) => Ok(seq![t] + rest),
            },
        }
    }
}

/// A whole document: the root must be a tuple, and each of its elements is a
/// top-level item.
pub open spec fn resolve_doc(e: SpecExpr) -> Result<Seq<SpecItem<Seq<char>>>, SpecSynErr> {
    match e {
        SpecExpr::Tuple(items) => resolve_top_items(items),
        _ => Err(SpecSynErr::IllegalElement),
    }
}

/// Pushing a span pushes its model.
pub proof fn lemma_text_models_push(v: Seq<TextItem>, t: TextItem)
    ensures
        text_models(v.push(t)) == text_models(v).push(t.model()),
{
    assert(text_models(v.push(t)) =~= text_models(v).push(t.model()));
}

/// Pushing a gallery entry pushes its model.
pub proof fn lemma_image_items_model_push<T: DeepView>(v: Seq<ImageItem<T>>, t: ImageItem<T>)
    ensures
        image_items_model(v.push(t)) == image_items_model(v).push(t.model()),
{
    assert(image_items_model(v.push(t)) =~= image_items_model(v).push(t.model()));
}

/// Resolve a whole parsed expression tree into a document.  The root must be
/// a tuple; anything else is an illegal element.  The result is exactly what
/// [`resolve_doc`] says for the tree, with the first failure, if any,
/// surfaced unchanged: either a complete document or an error, never a
/// partial document.
pub fn parse_diary_content(expr: Expression) -> (r: ParseResult<Document<String>>)
    ensures
        match r {
            Ok(d) => resolve_doc(expr.model()) == Ok::<_, SpecSynErr>(d.model()),
            Err(e) => resolve_doc(expr.model()) == Err::<Seq<SpecItem<Seq<char>>>, _>(e.model()),
        },
{
    let ghost ge = expr;
    match expr {
        Expression::Tuple(l) => {
            proof {
                assert(ge.model() == SpecExpr::Tuple(crate::sexp::models(l@)));
            }
            match parse_top_list(l) {
                Ok(items) => Ok(Document::new(items)),
                Err(e) => Err(e),
            }
        },
        _ => Err(Error::IllegalElement),
    }
}

/// Resolve each element of the root tuple as a top-level item, left to
/// right, stopping at the first failure.
fn parse_top_list(list: Vec<Expression>) -> (r: ParseResult<Vec<Item<String>>>)
    ensures
        match r {
            Ok(v) => resolve_top_items(crate::sexp::models(list@)) == Ok::<_, SpecSynErr>(
                items_model(v@),
            ),
            Err(e) => resolve_top_items(crate::sexp::models(list@)) == Err::<
                Seq<SpecItem<Seq<char>>>,
                _,
            >(e.model()),
        },
{
    let ghost ms0 = crate::sexp::models(list@);
    let mut rest = list;
    let mut out: Vec<Item<String>> = Vec::new();
    proof {
        if resolve_top_items(ms0) is Ok {
            let tail = resolve_top_items(ms0)->Ok_0;
            assert(items_model(out@) + tail =~= tail);
        }
    }
    loop
        invariant
            match resolve_top_items(crate::sexp::models(rest@)) {
                Ok(tail) => resolve_top_items(ms0) == Ok::<_, SpecSynErr>(
                    items_model(out@) + tail,
                ),
                Err(e) => resolve_top_items(ms0) == Err::<Seq<SpecItem<Seq<char>>>, SpecSynErr>(
                    e,
                ),
            },
        decreases rest@.len(),
    {
        if rest.len() == 0 {
            proof {
                assert(items_model(out@) + Seq::<SpecItem<Seq<char>>>::empty() =~= items_model(
                    out@,
                ));
            }
            return Ok(out);
        }
        let ghost rest0 = rest@;
        let e = rest.remove(0);
        proof {
            crate::sexp::lemma_models_index(rest0);
            assert(rest@ =~= rest0.subrange(1, rest0.len() as int));
            crate::sexp::lemma_models_subrange(rest0, 1, rest0.len() as int);
        }
        match parse_top_expr(e) {
            Ok(item) => {
                proof {
                    lemma_items_model_push(out@, item);
                    if resolve_top_items(crate::sexp::models(rest@)) is Ok {
                        let tail = resolve_top_items(crate::sexp::models(rest@))->Ok_0;
                        assert(items_model(out@).push(item.model()) + tail =~= items_model(out@)
                            + (seq![item.model()] + tail));
                    }
                }
                out.push(item);
            },
            Err(err) => {
                return Err(err);
            },
        }
    }
}

/// Resolve one top-level element by keyword dispatch.
fn parse_top_expr(expr: Expression) -> (r: ParseResult<Item<String>>)
    ensures
        match r {
            Ok(item) => resolve_top_item(expr.model()) == Ok::<_, SpecSynErr>(item.model()),
            Err(e) => resolve_top_item(expr.model()) == Err::<SpecItem<Seq<char>>, _>(e.model()),
        },
{
    let ghost ge = expr;
    match expr {
        Expression::Tuple(t) => {
            let ghost ts = crate::sexp::models(t@);
            proof {
                crate::sexp::lemma_models_index(t@);
            }
            match expect_application(t) {
                Ok((rator, rands)) => {
                    proof {
                        crate::sexp::lemma_models_subrange(t@, 1, t@.len() as int);
                    }
                    if kw(&rator, "h") || kw(&rator, "header") {
                        parse_header(rands)
                    } else if kw(&rator, "txt") || kw(&rator, "text") {
                        parse_text(rands)
                    } else if kw(&rator, "li") || kw(&rator, "list") {
                        parse_list(rands)
                    } else if kw(&rator, "img") || kw(&rator, "image") {
                        parse_image(rands)
                    } else {
                        Err(Error::UnknownOperator(rator))
                    }
                },
                Err(ApplicationError::MissingOperator) => Err(Error::MissingOperator),
                Err(ApplicationError::HeadIsNotLiteral) => Err(Error::IllegalElement),
            }
        },
        Expression::String(s) => {
            let mut spans: Vec<TextItem> = Vec::new();
            spans.push(TextItem::RawString(s));
            proof {
                assert(text_models(spans@) =~= seq![spans@[0].model()]);
            }
            Ok(Item::Text(spans))
        },
        Expression::BackQuotedString(s) => {
            let mut spans: Vec<TextItem> = Vec::new();
            spans.push(TextItem::Code(s));
            proof {
                assert(text_models(spans@) =~= seq![spans@[0].model()]);
            }
            Ok(Item::Text(spans))
        },
        _ => Err(Error::IllegalElement),
    }
}

/// `h` / `header`: exactly one quoted string.
fn parse_header(rands: Vec<Expression>) -> (r: ParseResult<Item<String>>)
    ensures
        match r {
            Ok(item) => ({
                &&& spec_one_string(crate::sexp::models(rands@)) matches Ok(s)
                &&& item.model() == SpecItem::<Seq<char>>::Header(s)
            }),
            Err(e) => spec_one_string(crate::sexp::models(rands@)) == Err::<Seq<char>, _>(
                e.model(),
            ),
        },
{
    proof {
        crate::sexp::lemma_models_index(rands@);
    }
    let mut rest = rands;
    if rest.len() == 0 {
        return Err(Error::OperandMismatch);
    }
    let first = rest.remove(0);
    proof {
        assert(first == rands@[0]);
        assert(crate::sexp::models(rands@)[0] == rands@[0].model());
    }
    match first {
        Expression::String(s) => {
            if rest.len() > 0 {
                Err(Error::OperandMismatch)
            } else {
                Ok(Item::Header(s))
            }
        },
        _ => Err(Error::IllegalElement),
    }
}

/// `txt` / `text`: each operand is an inline span.
fn parse_text(rands: Vec<Expression>) -> (r: ParseResult<Item<String>>)
    ensures
        match r {
            Ok(item) => ({
                &&& resolve_text_items(crate::sexp::models(rands@)) matches Ok(ts)
                &&& item.model() == SpecItem::<Seq<char>>::Text(ts)
            }),
            Err(e) => resolve_text_items(crate::sexp::models(rands@)) == Err::<
                Seq<SpecTextItem>,
                _,
            >(e.model()),
        },
{
    let ghost ms0 = crate::sexp::models(rands@);
    let mut rest = rands;
    let mut out: Vec<TextItem> = Vec::new();
    proof {
        if resolve_text_items(ms0) is Ok {
            let tail = resolve_text_items(ms0)->Ok_0;
            assert(text_models(out@) + tail =~= tail);
        }
    }
    loop
        invariant
            match resolve_text_items(crate::sexp::models(rest@)) {
                Ok(tail) => resolve_text_items(ms0) == Ok::<_, SpecSynErr>(
                    text_models(out@) + tail,
                ),
                Err(e) => resolve_text_items(ms0) == Err::<Seq<SpecTextItem>, SpecSynErr>(e),
            },
        decreases rest@.len(),
    {
        if rest.len() == 0 {
            proof {
                assert(text_models(out@) + Seq::<SpecTextItem>::empty() =~= text_models(out@));
            }
            return Ok(Item::Text(out));
        }
        let ghost rest0 = rest@;
        let e = rest.remove(0);
        proof {
            crate::sexp::lemma_models_index(rest0);
            assert(rest@ =~= rest0.subrange(1, rest0.len() as int));
            crate::sexp::lemma_models_subrange(rest0, 1, rest0.len() as int);
        }
        match parse_text_item(e) {
            Ok(t) => {
                proof {
                    lemma_text_models_push(out@, t);
                    if resolve_text_items(crate::sexp::models(rest@)) is Ok {
                        let tail = resolve_text_items(crate::sexp::models(rest@))->Ok_0;
                        assert(text_models(out@).push(t.model()) + tail =~= text_models(out@) + (
                        seq![t.model()] + tail));
                    }
                }
                out.push(t);
            },
            Err(err) => {
                return Err(err);
            },
        }
    }
}

/// One inline span, by keyword dispatch on nested tuples.
fn parse_text_item(expr: Expression) -> (r: ParseResult<TextItem>)
    ensures
        match r {
            Ok(t) => resolve_text_item(expr.model()) == Ok::<_, SpecSynErr>(t.model()),
            Err(e) => resolve_text_item(expr.model()) == Err::<SpecTextItem, _>(e.model()),
        },
{
    let ghost ge = expr;
    match expr {
        Expression::Tuple(t) => {
            let ghost ts = crate::sexp::models(t@);
            proof {
                crate::sexp::lemma_models_index(t@);
            }
            match expect_application(t) {
                Ok((rator, rands)) => {
                    proof {
                        crate::sexp::lemma_models_subrange(t@, 1, t@.len() as int);
                    }
                    if kw(&rator, "a") {
                        parse_weblink(rands)
                    } else if kw(&rator, "b") {
                        parse_bold(rands)
                    } else if kw(&rator, "p") {
                        parse_post(rands)
                    } else if kw(&rator, "code") {
                        parse_code(rands)
                    } else {
                        Err(Error::UnknownOperator(rator))
                    }
                },
                Err(ApplicationError::MissingOperator) => Err(Error::MissingOperator),
                Err(ApplicationError::HeadIsNotLiteral) => Err(Error::IllegalElement),
            }
        },
        Expression::String(s) => Ok(TextItem::RawString(s)),
        Expression::BackQuotedString(s) => Ok(TextItem::Code(s)),
        _ => Err(Error::IllegalElement),
    }
}

/// `a`: exactly two quoted strings, the link title and its address.
fn parse_weblink(rands: Vec<Expression>) -> (r: ParseResult<TextItem>)
    ensures
        match r {
            Ok(t) => ({
                &&& spec_two_strings(crate::sexp::models(rands@)) matches Ok(p)
                &&& t.model() == SpecTextItem::WebLink(p.0, p.1)
            }),
            Err(e) => spec_two_strings(crate::sexp::models(rands@)) == Err::<
                (Seq<char>, Seq<char>),
                _,
            >(e.model()),
        },
{
    proof {
        crate::sexp::lemma_models_index(rands@);
    }
    let mut rest = rands;
    if rest.len() == 0 {
        return Err(Error::OperandMismatch);
    }
    let first = rest.remove(0);
    proof {
        assert(first == rands@[0]);
        assert(crate::sexp::models(rands@)[0] == rands@[0].model());
    }
    let title = match first {
        Expression::String(s) => s,
        _ => {
            return Err(Error::IllegalElement);
        },
    };
    if rest.len() == 0 {
        return Err(Error::OperandMismatch);
    }
    let second = rest.remove(0);
    proof {
        assert(second == rands@[1]);
        assert(crate::sexp::models(rands@)[1] == rands@[1].model());
    }
    let href = match second {
        Expression::String(s) => s,
        _ => {
            return Err(Error::IllegalElement);
        },
    };
    if rest.len() > 0 {
        return Err(Error::OperandMismatch);
    }
    Ok(TextItem::WebLink(WebLink { title, href }))
}

/// `b`: exactly one quoted string, set in bold.
fn parse_bold(rands: Vec<Expression>) -> (r: ParseResult<TextItem>)
    ensures
        match r {
            Ok(t) => ({
                &&& spec_one_string(crate::sexp::models(rands@)) matches Ok(s)
                &&& t.model() == SpecTextItem::Bold(s)
            }),
            Err(e) => spec_one_string(crate::sexp::models(rands@)) == Err::<Seq<char>, _>(
                e.model(),
            ),
        },
{
    proof {
        crate::sexp::lemma_models_index(rands@);
    }
    let mut rest = rands;
    if rest.len() == 0 {
        return Err(Error::OperandMismatch);
    }
    let first = rest.remove(0);
    proof {
        assert(first == rands@[0]);
        assert(crate::sexp::models(rands@)[0] == rands@[0].model());
    }
    match first {
        Expression::String(s) => {
            if rest.len() > 0 {
                Err(Error::OperandMismatch)
            } else {
                Ok(TextItem::Bold(s))
            }
        },
        _ => Err(Error::IllegalElement),
    }
}

/// `p`: exactly three integers, the year, month and day of another entry.
fn parse_post(rands: Vec<Expression>) -> (r: ParseResult<TextItem>)
    ensures
        match r {
            Ok(t) => ({
                &&& spec_three_integers(crate::sexp::models(rands@)) matches Ok(d)
                &&& t.model() == SpecTextItem::PostLink(d)
            }),
            Err(e) => spec_three_integers(crate::sexp::models(rands@)) == Err::<
                (u32, u32, u32),
                _,
            >(e.model()),
        },
{
    proof {
        crate::sexp::lemma_models_index(rands@);
    }
    let mut rest = rands;
    if rest.len() == 0 {
        return Err(Error::OperandMismatch);
    }
    let first = rest.remove(0);
    proof {
        assert(first == rands@[0]);
        assert(crate::sexp::models(rands@)[0] == rands@[0].model());
    }
    let year = match first {
        Expression::Integer(n) => n,
        _ => {
            return Err(Error::IllegalElement);
        },
    };
    if rest.len() == 0 {
        return Err(Error::OperandMismatch);
    }
    let second = rest.remove(0);
    proof {
        assert(second == rands@[1]);
        assert(crate::sexp::models(rands@)[1] == rands@[1].model());
    }
    let month = match second {
        Expression::Integer(n) => n,
        _ => {
            return Err(Error::IllegalElement);
        },
    };
    if rest.len() == 0 {
        return Err(Error::OperandMismatch);
    }
    let third = rest.remove(0);
    proof {
        assert(third == rands@[2]);
        assert(crate::sexp::models(rands@)[2] == rands@[2].model());
    }
    let day = match third {
        Expression::Integer(n) => n,
        _ => {
            return Err(Error::IllegalElement);
        },
    };
    if rest.len() > 0 {
        return Err(Error::OperandMismatch);
    }
    Ok(TextItem::PostLink((year, month, day)))
}

/// `code`: exactly one quoted string, set as a code span.
fn parse_code(rands: Vec<Expression>) -> (r: ParseResult<TextItem>)
    ensures
        match r {
            Ok(t) => ({
                &&& spec_one_string(crate::sexp::models(rands@)) matches Ok(s)
                &&& t.model() == SpecTextItem::Code(s)
            }),
            Err(e) => spec_one_string(crate::sexp::models(rands@)) == Err::<Seq<char>, _>(
                e.model(),
            ),
        },
{
    proof {
        crate::sexp::lemma_models_index(rands@);
    }
    let mut rest = rands;
    if rest.len() == 0 {
        return Err(Error::OperandMismatch);
    }
    let first = rest.remove(0);
    proof {
        assert(first == rands@[0]);
        assert(crate::sexp::models(rands@)[0] == rands@[0].model());
    }
    match first {
        Expression::String(s) => {
            if rest.len() > 0 {
                Err(Error::OperandMismatch)
            } else {
                Ok(TextItem::Code(s))
            }
        },
        _ => Err(Error::IllegalElement),
    }
}

/// `li` / `list`: each operand is a list member; lists nest.
fn parse_list(rands: Vec<Expression>) -> (r: ParseResult<Item<String>>)
    ensures
        match r {
            Ok(item) => ({
                &&& resolve_list_items(crate::sexp::models(rands@)) matches Ok(its)
                &&& item.model() == SpecItem::<Seq<char>>::List(its)
            }),
            Err(e) => resolve_list_items(crate::sexp::models(rands@)) == Err::<
                Seq<SpecItem<Seq<char>>>,
                _,
            >(e.model()),
        },
    decreases rands@,
{
    let ghost ms0 = crate::sexp::models(rands@);
    let ghost all0 = rands@;
    let mut rest = rands;
    let mut out: Vec<Item<String>> = Vec::new();
    let ghost mut taken: int = 0;
    proof {
        if resolve_list_items(ms0) is Ok {
            let tail = resolve_list_items(ms0)->Ok_0;
            assert(items_model(out@) + tail =~= tail);
        }
    }
    loop
        invariant
            0 <= taken <= all0.len(),
            rest@ == all0.subrange(taken, all0.len() as int),
            match resolve_list_items(crate::sexp::models(rest@)) {
                Ok(tail) => resolve_list_items(ms0) == Ok::<_, SpecSynErr>(
                    items_model(out@) + tail,
                ),
                Err(e) => resolve_list_items(ms0) == Err::<Seq<SpecItem<Seq<char>>>, SpecSynErr>(
                    e,
                ),
            },
        decreases rest@.len(),
    {
        if rest.len() == 0 {
            proof {
                assert(items_model(out@) + Seq::<SpecItem<Seq<char>>>::empty() =~= items_model(
                    out@,
                ));
            }
            return Ok(Item::List(out));
        }
        let ghost rest0 = rest@;
        let e = rest.remove(0);
        proof {
            crate::sexp::lemma_models_index(rest0);
            assert(rest@ =~= rest0.subrange(1, rest0.len() as int));
            assert(rest@ =~= all0.subrange(taken + 1, all0.len() as int));
            crate::sexp::lemma_models_subrange(rest0, 1, rest0.len() as int);
            assert(e == all0[taken]);
            assert(decreases_to!(all0 => all0[taken]));
        }
        match parse_list_item(e) {
            Ok(item) => {
                proof {
                    lemma_items_model_push(out@, item);
                    if resolve_list_items(crate::sexp::models(rest@)) is Ok {
                        let tail = resolve_list_items(crate::sexp::models(rest@))->Ok_0;
                        assert(items_model(out@).push(item.model()) + tail =~= items_model(out@)
                            + (seq![item.model()] + tail));
                    }
                }
                out.push(item);
            },
            Err(err) => {
                return Err(err);
            },
        }
        proof {
            taken = taken + 1;
        }
    }
}

/// One list member: the top-level item grammar, but a header here is
/// rejected as an illegal element rather than resolved, since a header
/// cannot stand inside a list.
fn parse_list_item(expr: Expression) -> (r: ParseResult<Item<String>>)
    ensures
        match r {
            Ok(item) => resolve_list_item(expr.model()) == Ok::<_, SpecSynErr>(item.model()),
            Err(e) => resolve_list_item(expr.model()) == Err::<SpecItem<Seq<char>>, _>(e.model()),
        },
    decreases expr,
{
    let ghost ge = expr;
    match expr {
        Expression::Tuple(t) => {
            let ghost tv = t@;
            let ghost ts = crate::sexp::models(t@);
            proof {
                crate::sexp::lemma_models_index(t@);
            }
            match expect_application(t) {
                Ok((rator, rands)) => {
                    proof {
                        crate::sexp::lemma_models_subrange(tv, 1, tv.len() as int);
                        assert(decreases_to!(ge => ge->Tuple_0));
                        assert(decreases_to!(ge->Tuple_0 => ge->Tuple_0@));
                        assert(decreases_to!(ge->Tuple_0@ => ge->Tuple_0@.subrange(
                            1,
                            ge->Tuple_0@.len() as int,
                        )));
                        assert(rands@ == ge->Tuple_0@.subrange(1, ge->Tuple_0@.len() as int));
                    }
                    if kw(&rator, "h") || kw(&rator, "header") {
                        Err(Error::IllegalElement)
                    } else if kw(&rator, "txt") || kw(&rator, "text") {
                        parse_text(rands)
                    } else if kw(&rator, "li") || kw(&rator, "list") {
                        parse_list(rands)
                    } else if kw(&rator, "img") || kw(&rator, "image") {
                        parse_image(rands)
                    } else {
                        Err(Error::UnknownOperator(rator))
                    }
                },
                Err(ApplicationError::MissingOperator) => Err(Error::MissingOperator),
                Err(ApplicationError::HeadIsNotLiteral) => Err(Error::IllegalElement),
            }
        },
        Expression::String(s) => {
            let mut spans: Vec<TextItem> = Vec::new();
            spans.push(TextItem::RawString(s));
            proof {
                assert(text_models(spans@) =~= seq![spans@[0].model()]);
            }
            Ok(Item::Text(spans))
        },
        Expression::BackQuotedString(s) => {
            let mut spans: Vec<TextItem> = Vec::new();
            spans.push(TextItem::Code(s));
            proof {
                assert(text_models(spans@) =~= seq![spans@[0].model()]);
            }
            Ok(Item::Text(spans))
        },
        _ => Err(Error::IllegalElement),
    }
}

/// `img` / `image`: a quoted gallery title, then one tuple per image.
fn parse_image(rands: Vec<Expression>) -> (r: ParseResult<Item<String>>)
    ensures
        match r {
            Ok(item) => resolve_image(crate::sexp::models(rands@)) == Ok::<_, SpecSynErr>(
                item.model(),
            ),
            Err(e) => resolve_image(crate::sexp::models(rands@)) == Err::<
                SpecItem<Seq<char>>,
                _,
            >(e.model()),
        },
{
    proof {
        crate::sexp::lemma_models_index(rands@);
    }
    let ghost all = rands@;
    let mut rest = rands;
    if rest.len() == 0 {
        return Err(Error::OperandMismatch);
    }
    let first = rest.remove(0);
    proof {
        assert(first == all[0]);
        assert(crate::sexp::models(all)[0] == all[0].model());
        assert(rest@ =~= all.subrange(1, all.len() as int));
        crate::sexp::lemma_models_subrange(all, 1, all.len() as int);
    }
    let title = match first {
        Expression::String(s) => s,
        _ => {
            return Err(Error::IllegalElement);
        },
    };
    let ghost ms0 = crate::sexp::models(rest@);
    let mut out: Vec<ImageItem<String>> = Vec::new();
    proof {
        if resolve_image_items(ms0) is Ok {
            let tail = resolve_image_items(ms0)->Ok_0;
            assert(image_items_model(out@) + tail =~= tail);
        }
    }
    loop
        invariant
            match resolve_image_items(crate::sexp::models(rest@)) {
                Ok(tail) => resolve_image_items(ms0) == Ok::<_, SpecSynErr>(
                    image_items_model(out@) + tail,
                ),
                Err(e) => resolve_image_items(ms0) == Err::<
                    Seq<SpecImageItem<Seq<char>>>,
                    SpecSynErr,
                >(e),
            },
        decreases rest@.len(),
    {
        if rest.len() == 0 {
            proof {
                assert(image_items_model(out@) + Seq::<SpecImageItem<Seq<char>>>::empty()
                    =~= image_items_model(out@));
            }
            return Ok(Item::Images(Images { title, items: out }));
        }
        let ghost rest0 = rest@;
        let e = rest.remove(0);
        proof {
            crate::sexp::lemma_models_index(rest0);
            assert(rest@ =~= rest0.subrange(1, rest0.len() as int));
            crate::sexp::lemma_models_subrange(rest0, 1, rest0.len() as int);
        }
        match parse_image_items(e) {
            Ok(item) => {
                proof {
                    lemma_image_items_model_push(out@, item);
                    if resolve_image_items(crate::sexp::models(rest@)) is Ok {
                        let tail = resolve_image_items(crate::sexp::models(rest@))->Ok_0;
                        assert(image_items_model(out@).push(item.model()) + tail
                            =~= image_items_model(out@) + (seq![item.model()] + tail));
                    }
                }
                out.push(item);
            },
            Err(err) => {
                return Err(err);
            },
        }
    }
}

/// One gallery entry: a tuple of the image path and an optional caption.
fn parse_image_items(expr: Expression) -> (r: ParseResult<ImageItem<String>>)
    ensures
        match r {
            Ok(item) => resolve_image_item(expr.model()) == Ok::<_, SpecSynErr>(item.model()),
            Err(e) => resolve_image_item(expr.model()) == Err::<SpecImageItem<Seq<char>>, _>(
                e.model(),
            ),
        },
{
    let ghost ge = expr;
    match expr {
        Expression::Tuple(t) => {
            proof {
                crate::sexp::lemma_models_index(t@);
            }
            let ghost tv = t@;
            let mut rest = t;
            if rest.len() == 0 {
                return Err(Error::OperandMismatch);
            }
            let first = rest.remove(0);
            proof {
                assert(first == tv[0]);
                assert(crate::sexp::models(tv)[0] == tv[0].model());
            }
            let path = match first {
                Expression::String(s) => s,
                _ => {
                    return Err(Error::IllegalElement);
                },
            };
            if rest.len() == 0 {
                return Ok(ImageItem { data: path, caption: None });
            }
            if rest.len() > 1 {
                return Err(Error::OperandMismatch);
            }
            let second = rest.remove(0);
            proof {
                assert(second == tv[1]);
                assert(crate::sexp::models(tv)[1] == tv[1].model());
            }
            match second {
                Expression::String(c) => Ok(ImageItem { data: path, caption: Some(c) }),
                _ => Err(Error::IllegalElement),
            }
        },
        _ => Err(Error::IllegalElement),
    }
}

/// Whether these items can stand as the members of a list: none is a
/// header, and nested lists satisfy the same rule.
pub open spec fn list_members_ok<TV>(items: Seq<SpecItem<TV>>) -> bool
    decreases items,
{
    if items.len() == 0 {
        true
    } else {
        (match items[0] {
            SpecItem::Header(_) => false,
            SpecItem::List(sub) => list_members_ok(sub),
            _ => true,
        }) && list_members_ok(items.subrange(1, items.len() as int))
    }
}

/// Whether a document can be rendered: every list in it satisfies
/// [`list_members_ok`].  Headers may stand at the top level.
pub open spec fn doc_renderable<TV>(items: Seq<SpecItem<TV>>) -> bool
    decreases items,
{
    if items.len() == 0 {
        true
    } else {
        (match items[0] {
            SpecItem::List(sub) => list_members_ok(sub),
            _ => true,
        }) && doc_renderable(items.subrange(1, items.len() as int))
    }
}

/// A resolved list never holds a header: the resolver rejects one where a
/// list member is expected.
pub proof fn lemma_resolved_list_members_ok(items: Seq<SpecExpr>)
    ensures
        resolve_list_items(items) matches Ok(its) ==> list_members_ok(its),
    decreases items, 0int,
{
    if items.len() > 0 {
        lemma_resolved_list_item_ok(items[0]);
        lemma_resolved_list_members_ok(items.subrange(1, items.len() as int));
        if resolve_list_items(items) is Ok {
            let its = resolve_list_items(items)->Ok_0;
            let t = resolve_list_item(items[0])->Ok_0;
            let rest = resolve_list_items(items.subrange(1, items.len() as int))->Ok_0;
            assert(its == seq![t] + rest);
            assert(its[0] == t);
            assert(its.subrange(1, its.len() as int) =~= rest);
        }
    }
}

/// A resolved list member is never a header, and any list inside it obeys
/// the same rule.
pub proof fn lemma_resolved_list_item_ok(e: SpecExpr)
    ensures
        resolve_list_item(e) matches Ok(it) ==> !(it is Header) && (it matches SpecItem::List(sub)
            ==> list_members_ok(sub)),
    decreases e, 1int,
{
    match e {
        SpecExpr::Tuple(items) => {
            if items.len() > 0 && items[0] is Literal {
                let rands = items.subrange(1, items.len() as int);
                lemma_resolved_list_members_ok(rands);
            }
        },
        _ => {},
    }
}

/// Whatever the resolver returns can be rendered: every list in a resolved
/// document obeys [`list_members_ok`].
pub proof fn lemma_resolved_doc_renderable(e: SpecExpr)
    ensures
        resolve_doc(e) matches Ok(items) ==> doc_renderable(items),
{
    match e {
        SpecExpr::Tuple(items) => {
            lemma_resolved_top_items_renderable(items);
        },
        _ => {},
    }
}

/// Top-level items resolve to a renderable document.
pub proof fn lemma_resolved_top_items_renderable(items: Seq<SpecExpr>)
    ensures
        resolve_top_items(items) matches Ok(its) ==> doc_renderable(its),
    decreases items.len(),
{
    if items.len() > 0 {
        lemma_resolved_top_item_renderable(items[0]);
        lemma_resolved_top_items_renderable(items.subrange(1, items.len() as int));
        if resolve_top_items(items) is Ok {
            let its = resolve_top_items(items)->Ok_0;
            let t = resolve_top_item(items[0])->Ok_0;
            let rest = resolve_top_items(items.subrange(1, items.len() as int))->Ok_0;
            assert(its == seq![t] + rest);
            assert(its[0] == t);
            assert(its.subrange(1, its.len() as int) =~= rest);
        }
    }
}

/// A resolved top-level item holds only renderable lists.
pub proof fn lemma_resolved_top_item_renderable(e: SpecExpr)
    ensures
        resolve_top_item(e) matches Ok(it) ==> (it matches SpecItem::List(sub)
            ==> list_members_ok(sub)),
{
    match e {
        SpecExpr::Tuple(items) => {
            if items.len() > 0 && items[0] is Literal {
                let rands = items.subrange(1, items.len() as int);
                lemma_resolved_list_members_ok(rands);
            }
        },
        _ => {},
    }
}

/// Resolution is a pure function of the input tree: any two documents the
/// resolver can return for equal trees are equal.
pub proof fn lemma_resolution_deterministic(
    e1: Expression,
    e2: Expression,
    d1: Document<String>,
    d2: Document<String>,
)
    requires
        e1.model() == e2.model(),
        resolve_doc(e1.model()) == Ok::<_, SpecSynErr>(d1.model()),
        resolve_doc(e2.model()) == Ok::<_, SpecSynErr>(d2.model()),
    ensures
        d1.model() == d2.model(),
{
}

} // verus!

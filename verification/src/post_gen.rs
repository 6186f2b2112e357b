//! The monthly diary pages: one HTML page per month, holding each day's
//! resolved document.  The page is built as text; writing it to disk is the
//! caller's business.
use vstd::prelude::*;
use crate::date::{spec_days_in_month, spec_weekday, spec_weekday_name, Date};
use crate::diary_content::{
    doc_renderable, items_model, list_members_ok, text_models, Document, ImageItem, Images, Item,
    SpecImages, SpecItem, SpecTextItem, TextItem,
};
use crate::html::{close_tag, open_tag, open_tag_attrs, HtmlWriter};
use crate::image::{ImagePath, SpecImagePath};
use crate::text::{dec_chars, dec_chars_pad, push_str, u32_pad, u32_to_string};

verus! {

/// A document whose images have been resolved to assets.
pub type OutputDocument = Document<ImagePath>;

/// An item of such a document.
pub type OutputItem = Item<ImagePath>;

/// One inline span.
pub open spec fn render_span(t: SpecTextItem) -> Seq<char> {
    match t {
        SpecTextItem::Bold(s) => open_tag("b"@) + s + close_tag("b"@),
        SpecTextItem::RawString(s) => s,
        SpecTextItem::WebLink(title, href) => open_tag_attrs("a"@, seq![("href"@, href)]) + title
            + close_tag("a"@),
        SpecTextItem::PostLink(d) => "(ref. "@ + open_tag_attrs(
            "a"@,
            seq![
                (
                    "href"@,
                    "/"@ + dec_chars_pad(d.0 as nat, 4, 0x30) + "/"@ + dec_chars_pad(
                        d.1 as nat,
                        2,
                        0x30,
                    ) + "#"@ + dec_chars_pad(d.2 as nat, 2, 0x30),
                ),
            ],
        ) + dec_chars_pad(d.0 as nat, 4, 0x30) + "/"@ + dec_chars_pad(d.1 as nat, 2, 0x30) + "/"@
            + dec_chars_pad(d.2 as nat, 2, 0x30) + close_tag("a"@) + ")"@,
        SpecTextItem::Code(s) => open_tag("code"@) + s + close_tag("code"@),
    }
}

/// The spans of a paragraph, in order.
pub open spec fn render_spans(spans: Seq<SpecTextItem>) -> Seq<char>
    decreases spans.len(),
{
    if spans.len() == 0 {
        Seq::empty()
    } else {
        render_spans(spans.drop_last()) + render_span(spans.last())
    }
}

/// The site path of an image's full rendering.
pub open spec fn spec_actual_path(d: SpecImagePath) -> Seq<char> {
    "/img/"@ + d.name + ".webp"@
}

/// The site path of an image's thumbnail.
pub open spec fn spec_thumbnail_path(d: SpecImagePath) -> Seq<char> {
    "/img/"@ + d.name + "-thumb.jpeg"@
}

/// The row of thumbnails of a gallery, each linked to its full image.
pub open spec fn render_image_cells(items: Seq<crate::diary_content::SpecImageItem<SpecImagePath>>) -> Seq<char>
    decreases items.len(),
{
    if items.len() == 0 {
        Seq::empty()
    } else {
        render_image_cells(items.drop_last()) + (open_tag("td"@) + open_tag_attrs(
            "a"@,
            seq![("href"@, spec_actual_path(items.last().data))],
        ) + open_tag_attrs(
            "img"@,
            seq![
                ("src"@, spec_thumbnail_path(items.last().data)),
                ("width"@, dec_chars(items.last().data.width as nat)),
                ("height"@, dec_chars(items.last().data.height as nat)),
            ],
        ) + close_tag("a"@) + close_tag("td"@))
    }
}

/// The row of captions of a gallery; an entry without one gets an empty
/// cell.
pub open spec fn render_caption_cells(
    items: Seq<crate::diary_content::SpecImageItem<SpecImagePath>>,
) -> Seq<char>
    decreases items.len(),
{
    if items.len() == 0 {
        Seq::empty()
    } else {
        render_caption_cells(items.drop_last()) + (open_tag("td"@) + (match items.last().caption {
            Some(c) => c,
            None => Seq::empty(),
        }) + close_tag("td"@))
    }
}

/// A whole gallery: its title, then a table with a row of thumbnails and a
/// row of captions.
pub open spec fn render_images(im: SpecImages<SpecImagePath>) -> Seq<char> {
    im.title + open_tag("table"@) + open_tag("tbody"@) + open_tag("tr"@) + render_image_cells(
        im.items,
    ) + close_tag("tr"@) + open_tag("tr"@) + render_caption_cells(im.items) + close_tag("tr"@)
        + close_tag("tbody"@) + close_tag("table"@)
}

/// The members of a list.  A header cannot stand here; the rendering of one
/// is left unspecified, and the writers refuse such a document.
pub open spec fn render_list_members(items: Seq<SpecItem<SpecImagePath>>) -> Seq<char>
    decreases items, 0int,
{
    if items.len() == 0 {
        Seq::empty()
    } else {
        render_list_members(items.subrange(0, items.len() - 1)) + (match items.last() {
            SpecItem::Text(spans) => open_tag("li"@) + render_spans(spans) + close_tag("li"@),
            SpecItem::List(sub) => render_list(sub),
            SpecItem::Images(im) => open_tag("li"@) + render_images(im) + close_tag("li"@),
            SpecItem::Header(_) => Seq::empty(),
        })
    }
}

/// A list and its members.
pub open spec fn render_list(items: Seq<SpecItem<SpecImagePath>>) -> Seq<char>
    decreases items, 1int,
{
    open_tag("ul"@) + render_list_members(items) + close_tag("ul"@)
}

/// One block-level item.
pub open spec fn render_item(it: SpecItem<SpecImagePath>) -> Seq<char> {
    match it {
        SpecItem::Text(spans) => open_tag("p"@) + render_spans(spans) + close_tag("p"@),
        SpecItem::List(items) => render_list(items),
        SpecItem::Header(s) => open_tag("h3"@) + s + close_tag("h3"@),
        SpecItem::Images(im) => render_images(im),
    }
}

/// The items of one day's document, in order.
pub open spec fn render_doc_items(items: Seq<SpecItem<SpecImagePath>>) -> Seq<char>
    decreases items.len(),
{
    if items.len() == 0 {
        Seq::empty()
    } else {
        render_doc_items(items.drop_last()) + render_item(items.last())
    }
}

/// The dated heading of one day: an anchor named after the day, showing the
/// date and its weekday.
pub open spec fn render_date(year: u32, month: u32, day: u32) -> Seq<char> {
    open_tag_attrs("h2"@, seq![("id"@, dec_chars(day as nat))]) + open_tag_attrs(
        "a"@,
        seq![("href"@, "#"@ + dec_chars(day as nat))],
    ) + dec_chars(year as nat) + "/"@ + dec_chars_pad(month as nat, 2, 0x30) + "/"@
        + dec_chars_pad(day as nat, 2, 0x30) + " ("@ + spec_weekday_name(
        spec_weekday(year, month, day),
    ) + ")"@ + close_tag("a"@) + close_tag("h2"@)
}

/// One day's entry: its dated heading, then its items.
pub open spec fn render_daily(
    year: u32,
    month: u32,
    day: u32,
    items: Seq<SpecItem<SpecImagePath>>,
) -> Seq<char> {
    open_tag("dt"@) + render_date(year, month, day) + close_tag("dt"@) + open_tag("dd"@)
        + render_doc_items(items) + close_tag("dd"@)
}

/// The days of a month, latest first; a day without a document renders as
/// nothing.  The document at position `i` belongs to day `i + 1`.
pub open spec fn render_days(
    year: u32,
    month: u32,
    docs: Seq<Option<Seq<SpecItem<SpecImagePath>>>>,
) -> Seq<char>
    decreases docs.len(),
{
    if docs.len() == 0 {
        Seq::empty()
    } else {
        (match docs.last() {
            Some(items) => render_daily(year, month, docs.len() as u32, items),
            None => Seq::empty(),
        }) + render_days(year, month, docs.drop_last())
    }
}

/// The page title of a month.
pub open spec fn monthly_title(year: u32, month: u32) -> Seq<char> {
    "Natuka.ge - "@ + dec_chars_pad(year as nat, 4, 0x20) + "/"@ + dec_chars_pad(
        month as nat,
        2,
        0x30,
    )
}

/// A whole monthly page.
pub open spec fn render_monthly(
    year: u32,
    month: u32,
    docs: Seq<Option<Seq<SpecItem<SpecImagePath>>>>,
) -> Seq<char> {
    "<!DOCTYPE html>"@ + open_tag_attrs("html"@, seq![("lang"@, "ja"@)]) + open_tag("head"@)
        + open_tag_attrs("meta"@, seq![("charset"@, "utf-8"@)]) + open_tag("title"@)
        + monthly_title(year, month) + close_tag("title"@) + close_tag("head"@) + open_tag(
        "body"@,
    ) + open_tag("h1"@) + monthly_title(year, month) + close_tag("h1"@) + open_tag_attrs(
        "a"@,
        seq![("href"@, "/"@)],
    ) + "ホーム"@ + close_tag("a"@) + "へ"@ + open_tag("hr"@) + open_tag("dl"@) + render_days(
        year,
        month,
        docs,
    ) + close_tag("dl"@) + close_tag("body"@) + close_tag("html"@)
}

/// The month's documents seen as mathematical values.
pub open spec fn docs_model(v: Seq<Option<Document<ImagePath>>>) -> Seq<
    Option<Seq<SpecItem<SpecImagePath>>>,
> {
    v.map_values(
        |o: Option<Document<ImagePath>>|
            match o {
                Some(d) => Some(d.model()),
                None => None,
            },
    )
}

/// Build the page of one month.  The document at position `i` of `docs`
/// belongs to day `i + 1`: each position holding a document must be a day
/// that exists in that month, and every document must be renderable (no
/// header inside a list), which holds of everything the resolver returns.
#[verifier::rlimit(100)]
pub fn generate_monthly(year: u32, month: u32, docs: Vec<Option<OutputDocument>>) -> (r: String)
    requires
        forall|i: int|
            0 <= i < docs@.len() ==> (#[trigger] docs@[i] matches Some(d) ==> ({
                &&& doc_renderable(d.model())
                &&& 1 <= month <= 12
                &&& i + 1 <= spec_days_in_month(year, month)
            })),
    ensures
        r@ == render_monthly(year, month, docs_model(docs@)),
{
    let mut w = HtmlWriter::new();
    let mut title = String::new();
    push_str(&mut title, "Natuka.ge - ");
    let ys = u32_pad(year, 4, 0x20);
    push_str(&mut title, ys.as_str());
    push_str(&mut title, "/");
    let ms = u32_pad(month, 2, 0x30);
    push_str(&mut title, ms.as_str());
    proof {
        assert(title@ =~= monthly_title(year, month));
    }
    w.doctype();
    let attrs_lang: [(&str, &str); 1] = [("lang", "ja")];
    proof {
        assert(crate::html::attrs_model(attrs_lang@) =~= seq![("lang"@, "ja"@)]);
    }
    w.start_attr("html", attrs_lang.as_slice());
    w.start("head");
    let attrs_charset: [(&str, &str); 1] = [("charset", "utf-8")];
    proof {
        assert(crate::html::attrs_model(attrs_charset@) =~= seq![("charset"@, "utf-8"@)]);
    }
    w.start_attr("meta", attrs_charset.as_slice());
    w.start("title");
    w.raw(title.as_str());
    w.end("title");
    w.end("head");
    w.start("body");
    w.start("h1");
    w.raw(title.as_str());
    w.end("h1");
    let attrs_home: [(&str, &str); 1] = [("href", "/")];
    proof {
        assert(crate::html::attrs_model(attrs_home@) =~= seq![("href"@, "/"@)]);
    }
    w.start_attr("a", attrs_home.as_slice());
    w.raw("ホーム");
    w.end("a");
    w.raw("へ");
    w.start("hr");
    w.start("dl");
    let ghost head0 = w.spec_buf();
    let ghost all = docs_model(docs@);
    let mut rest = docs;
    proof {
        assert(docs_model(rest@) =~= all);
    }
    loop
        invariant
            rest@.len() <= docs@.len(),
            docs_model(rest@) =~= all.subrange(0, rest@.len() as int),
            forall|i: int|
                0 <= i < rest@.len() ==> (#[trigger] rest@[i] matches Some(d) ==> ({
                    &&& doc_renderable(d.model())
                    &&& 1 <= month <= 12
                    &&& i + 1 <= spec_days_in_month(year, month)
                })),
            render_days(year, month, all) == (w.spec_buf().subrange(
                head0.len() as int,
                w.spec_buf().len() as int,
            )) + render_days(year, month, docs_model(rest@)),
            w.spec_buf().len() >= head0.len(),
            head0 == w.spec_buf().subrange(0, head0.len() as int),
        decreases rest@.len(),
    {
        if rest.len() == 0 {
            break ;
        }
        let ghost sofar = w.spec_buf().subrange(head0.len() as int, w.spec_buf().len() as int);
        let ghost restm = docs_model(rest@);
        let day_index = rest.len();
        let doc = rest.pop().unwrap();
        proof {
            assert(docs_model(rest@) =~= restm.drop_last());
            assert(restm.last() == (match doc {
                Some(d) => Some(d.model()),
                None => None,
            }));
        }
        match doc {
            Some(d) => {
                let date = Date::new(year, month, day_index as u32).unwrap();
                write_daily(&mut w, &date, &d);
            },
            None => {},
        }
        proof {
            assert(head0 =~= w.spec_buf().subrange(0, head0.len() as int));
            let now = w.spec_buf().subrange(head0.len() as int, w.spec_buf().len() as int);
            match restm.last() {
                Some(items) => {
                    assert(now =~= sofar + render_daily(year, month, restm.len() as u32, items));
                },
                None => {
                    assert(now =~= sofar);
                },
            }
            assert(render_days(year, month, all) =~= now + render_days(
                year,
                month,
                docs_model(rest@),
            ));
        }
    }
    proof {
        assert(docs_model(rest@) =~= Seq::<Option<Seq<SpecItem<SpecImagePath>>>>::empty());
        assert(w.spec_buf() =~= head0 + render_days(year, month, all));
    }
    w.end("dl");
    w.end("body");
    w.end("html");
    proof {
        assert(w.spec_buf() =~= render_monthly(year, month, all));
    }
    w.into_string()
}

/// Write one day's entry.
#[verifier::rlimit(100)]
fn write_daily(w: &mut HtmlWriter, date: &Date, doc: &OutputDocument)
    requires
        date.spec_valid(),
        doc_renderable(doc.model()),
    ensures
        final(w).spec_buf() == old(w).spec_buf() + render_daily(
            date.spec_year(),
            date.spec_month(),
            date.spec_day(),
            doc.model(),
        ),
{
    w.start("dt");
    write_date(w, date);
    w.end("dt");
    w.start("dd");
    let items = doc.contents();
    let ghost all = doc.model();
    let mut i: usize = 0;
    proof {
        assert(items_model(items@.subrange(0, 0)) =~= Seq::<SpecItem<SpecImagePath>>::empty());
        crate::diary_content::lemma_items_model_index(items@);
    }
    while i < items.len()
        invariant
            i <= items@.len(),
            items@ == doc.spec_contents(),
            all == doc.model(),
            doc_renderable(all),
            w.spec_buf().len() >= old(w).spec_buf().len(),
            w.spec_buf() == old(w).spec_buf() + (open_tag("dt"@) + render_date(
                date.spec_year(),
                date.spec_month(),
                date.spec_day(),
            ) + close_tag("dt"@) + open_tag("dd"@)) + render_doc_items(
                items_model(items@.subrange(0, i as int)),
            ),
        decreases items@.len() - i,
    {
        let ghost done = items_model(items@.subrange(0, i as int));
        proof {
            lemma_doc_renderable_at(all, i as int);
        }
        write_item(w, &items[i]);
        i = i + 1;
        proof {
            assert(items@.subrange(0, i as int) =~= items@.subrange(0, i - 1).push(
                items@[i - 1],
            ));
            crate::diary_content::lemma_items_model_push(
                items@.subrange(0, i - 1),
                items@[i - 1],
            );
            assert((done.push(items@[i - 1].model())).drop_last() =~= done);
            assert(render_doc_items(items_model(items@.subrange(0, i as int)))
                =~= render_doc_items(done) + render_item(items@[i - 1].model()));
        }
    }
    proof {
        assert(items@.subrange(0, items@.len() as int) =~= items@);
    }
    w.end("dd");
}

/// In a renderable document, the lists of every item are renderable.
proof fn lemma_doc_renderable_at<TV>(items: Seq<SpecItem<TV>>, i: int)
    requires
        doc_renderable(items),
        0 <= i < items.len(),
    ensures
        items[i] matches SpecItem::List(sub) ==> list_members_ok(sub),
    decreases items.len(),
{
    if i > 0 {
        assert(items.subrange(1, items.len() as int)[i - 1] == items[i]);
        lemma_doc_renderable_at(items.subrange(1, items.len() as int), i - 1);
    }
}

/// Write one block-level item.
fn write_item(w: &mut HtmlWriter, item: &OutputItem)
    requires
        item.model() matches SpecItem::List(sub) ==> list_members_ok(sub),
    ensures
        final(w).spec_buf() == old(w).spec_buf() + render_item(item.model()),
{
    match item {
        Item::Text(txt) => {
            write_paragraph(w, txt);
        },
        Item::List(li) => {
            write_list(w, li);
        },
        Item::Header(txt) => {
            write_header(w, txt.as_str());
        },
        Item::Images(images) => {
            write_images(w, images);
        },
    }
}

/// Write one day's dated heading.
#[verifier::rlimit(100)]
fn write_date(w: &mut HtmlWriter, date: &Date)
    requires
        date.spec_valid(),
    ensures
        final(w).spec_buf() == old(w).spec_buf() + render_date(
            date.spec_year(),
            date.spec_month(),
            date.spec_day(),
        ),
{
    let id = u32_to_string(date.day());
    let attrs_id: [(&str, &str); 1] = [("id", id.as_str())];
    proof {
        assert(crate::html::attrs_model(attrs_id@) =~= seq![
            ("id"@, dec_chars(date.spec_day() as nat)),
        ]);
    }
    w.start_attr("h2", attrs_id.as_slice());
    let mut href = String::new();
    push_str(&mut href, "#");
    push_str(&mut href, id.as_str());
    let attrs_href: [(&str, &str); 1] = [("href", href.as_str())];
    proof {
        assert(href@ =~= "#"@ + dec_chars(date.spec_day() as nat));
        assert(crate::html::attrs_model(attrs_href@) =~= seq![
            ("href"@, "#"@ + dec_chars(date.spec_day() as nat)),
        ]);
    }
    w.start_attr("a", attrs_href.as_slice());
    let ys = u32_to_string(date.year());
    w.raw(ys.as_str());
    w.raw("/");
    let ms = u32_pad(date.month(), 2, 0x30);
    w.raw(ms.as_str());
    w.raw("/");
    let ds = u32_pad(date.day(), 2, 0x30);
    w.raw(ds.as_str());
    w.raw(" (");
    let wd = date.weekday_ja();
    w.raw(wd);
    w.raw(")");
    w.end("a");
    w.end("h2");
    proof {
        assert(w.spec_buf() =~= old(w).spec_buf() + render_date(
            date.spec_year(),
            date.spec_month(),
            date.spec_day(),
        ));
    }
}

/// Write a header item.
fn write_header(w: &mut HtmlWriter, txt: &str)
    ensures
        final(w).spec_buf() == old(w).spec_buf() + (open_tag("h3"@) + txt@ + close_tag("h3"@)),
{
    w.start("h3");
    w.raw(txt);
    w.end("h3");
    proof {
        assert(w.spec_buf() =~= old(w).spec_buf() + (open_tag("h3"@) + txt@ + close_tag("h3"@)));
    }
}

/// Write a paragraph item.
fn write_paragraph(w: &mut HtmlWriter, txt: &Vec<TextItem>)
    ensures
        final(w).spec_buf() == old(w).spec_buf() + (open_tag("p"@) + render_spans(
            text_models(txt@),
        ) + close_tag("p"@)),
{
    w.start("p");
    write_text(w, txt);
    w.end("p");
    proof {
        assert(w.spec_buf() =~= old(w).spec_buf() + (open_tag("p"@) + render_spans(
            text_models(txt@),
        ) + close_tag("p"@)));
    }
}

/// Write the spans of a paragraph, in order.
#[verifier::rlimit(100)]
fn write_text(w: &mut HtmlWriter, txt: &Vec<TextItem>)
    ensures
        final(w).spec_buf() == old(w).spec_buf() + render_spans(text_models(txt@)),
{
    let ghost head0 = w.spec_buf();
    let mut i: usize = 0;
    proof {
        assert(text_models(txt@.subrange(0, 0)) =~= Seq::<SpecTextItem>::empty());
    }
    while i < txt.len()
        invariant
            i <= txt@.len(),
            w.spec_buf() == head0 + render_spans(text_models(txt@.subrange(0, i as int))),
        decreases txt@.len() - i,
    {
        let ghost done = text_models(txt@.subrange(0, i as int));
        match &txt[i] {
            TextItem::Bold(s) => {
                w.start("b");
                w.raw(s.as_str());
                w.end("b");
            },
            TextItem::RawString(s) => {
                w.raw(s.as_str());
            },
            TextItem::WebLink(link) => {
                let attrs: [(&str, &str); 1] = [("href", link.href.as_str())];
                proof {
                    assert(crate::html::attrs_model(attrs@) =~= seq![("href"@, link.href@)]);
                }
                w.start_attr("a", attrs.as_slice());
                w.raw(link.title.as_str());
                w.end("a");
            },
            TextItem::PostLink(d) => {
                let (year, month, day) = (d.0, d.1, d.2);
                let mut href = String::new();
                push_str(&mut href, "/");
                let ys = u32_pad(year, 4, 0x30);
                push_str(&mut href, ys.as_str());
                push_str(&mut href, "/");
                let ms = u32_pad(month, 2, 0x30);
                push_str(&mut href, ms.as_str());
                push_str(&mut href, "#");
                let ds = u32_pad(day, 2, 0x30);
                push_str(&mut href, ds.as_str());
                let attrs: [(&str, &str); 1] = [("href", href.as_str())];
                proof {
                    assert(href@ =~= "/"@ + dec_chars_pad(year as nat, 4, 0x30) + "/"@
                        + dec_chars_pad(month as nat, 2, 0x30) + "#"@ + dec_chars_pad(
                        day as nat,
                        2,
                        0x30,
                    ));
                    assert(crate::html::attrs_model(attrs@) =~= seq![
                        (
                            "href"@,
                            "/"@ + dec_chars_pad(year as nat, 4, 0x30) + "/"@ + dec_chars_pad(
                                month as nat,
                                2,
                                0x30,
                            ) + "#"@ + dec_chars_pad(day as nat, 2, 0x30),
                        ),
                    ]);
                }
                w.raw("(ref. ");
                w.start_attr("a", attrs.as_slice());
                w.raw(ys.as_str());
                w.raw("/");
                w.raw(ms.as_str());
                w.raw("/");
                w.raw(ds.as_str());
                w.end("a");
                w.raw(")");
            },
            TextItem::Code(s) => {
                w.start("code");
                w.raw(s.as_str());
                w.end("code");
            },
        }
        i = i + 1;
        proof {
            let now = text_models(txt@.subrange(0, i as int));
            assert(now.drop_last() =~= done);
            assert(now.last() == txt@[i - 1].model());
            assert(w.spec_buf() =~= head0 + (render_spans(done) + render_span(
                txt@[i - 1].model(),
            )));
        }
    }
    proof {
        assert(txt@.subrange(0, txt@.len() as int) =~= txt@);
    }
}

/// Write a list item and its members.  No member may be a header.
#[verifier::rlimit(100)]
fn write_list(w: &mut HtmlWriter, items: &Vec<OutputItem>)
    requires
        list_members_ok(items_model(items@)),
    ensures
        final(w).spec_buf() == old(w).spec_buf() + render_list(items_model(items@)),
    decreases items@,
{
    w.start("ul");
    let ghost head0 = w.spec_buf();
    let ghost all = items_model(items@);
    let mut i: usize = 0;
    proof {
        assert(items_model(items@.subrange(0, 0)) =~= Seq::<SpecItem<SpecImagePath>>::empty());
        crate::diary_content::lemma_items_model_index(items@);
    }
    while i < items.len()
        invariant
            i <= items@.len(),
            all == items_model(items@),
            list_members_ok(all),
            w.spec_buf().len() >= head0.len(),
            w.spec_buf() == head0 + render_list_members(items_model(items@.subrange(0, i as int))),
        decreases items@.len() - i,
    {
        let ghost done = items_model(items@.subrange(0, i as int));
        proof {
            lemma_list_members_ok_at(all, i as int);
            assert(all[i as int] == items@[i as int].model());
        }
        match &items[i] {
            Item::Text(txt) => {
                w.start("li");
                write_text(w, txt);
                w.end("li");
            },
            Item::List(li) => {
                proof {
                    assert(decreases_to!(items@ => items@[i as int]));
                    assert(items@[i as int] == Item::<ImagePath>::List(*li));
                    assert(decreases_to!(items@[i as int] => items@[i as int]->List_0));
                    assert(decreases_to!(items@[i as int]->List_0 => items@[i as int]->List_0@));
                }
                write_list(w, li);
            },
            Item::Header(_) => {
                // a header cannot stand among list members: the requires
                // rules it out, so this arm is unreachable
                proof {
                    assert(false);
                }
            },
            Item::Images(images) => {
                w.start("li");
                write_images(w, images);
                w.end("li");
            },
        }
        i = i + 1;
        proof {
            assert(items@.subrange(0, i as int) =~= items@.subrange(0, i - 1).push(
                items@[i - 1],
            ));
            crate::diary_content::lemma_items_model_push(
                items@.subrange(0, i - 1),
                items@[i - 1],
            );
            assert((done.push(items@[i - 1].model())).drop_last() =~= done);
            assert(render_list_members(items_model(items@.subrange(0, i as int)))
                =~= render_list_members(done) + (match items@[i - 1].model() {
                SpecItem::Text(spans) => open_tag("li"@) + render_spans(spans) + close_tag("li"@),
                SpecItem::List(sub) => render_list(sub),
                SpecItem::Images(im) => open_tag("li"@) + render_images(im) + close_tag("li"@),
                SpecItem::Header(_) => Seq::<char>::empty(),
            }));
        }
    }
    proof {
        assert(items@.subrange(0, items@.len() as int) =~= items@);
    }
    w.end("ul");
    proof {
        assert(w.spec_buf() =~= old(w).spec_buf() + render_list(items_model(items@)));
    }
}

/// Among valid list members, each member is itself valid.
proof fn lemma_list_members_ok_at<TV>(items: Seq<SpecItem<TV>>, i: int)
    requires
        list_members_ok(items),
        0 <= i < items.len(),
    ensures
        !(items[i] is Header),
        items[i] matches SpecItem::List(sub) ==> list_members_ok(sub),
    decreases items.len(),
{
    if i > 0 {
        assert(items.subrange(1, items.len() as int)[i - 1] == items[i]);
        lemma_list_members_ok_at(items.subrange(1, items.len() as int), i - 1);
    }
}

/// Write a gallery: its title, a row of linked thumbnails, a row of
/// captions.
/// Write a gallery: its title, a row of linked thumbnails, a row of
/// captions.
fn write_images(w: &mut HtmlWriter, images: &Images<ImagePath>)
    ensures
        final(w).spec_buf() == old(w).spec_buf() + render_images(images.model()),
{
    w.raw(images.title.as_str());
    w.start("table");
    w.start("tbody");
    w.start("tr");
    write_image_cells(w, &images.items);
    w.end("tr");
    w.start("tr");
    write_caption_cells(w, &images.items);
    w.end("tr");
    w.end("tbody");
    w.end("table");
    proof {
        assert(w.spec_buf() =~= old(w).spec_buf() + render_images(images.model()));
    }
}

/// Write the row of linked thumbnails of a gallery.
#[verifier::rlimit(100)]
fn write_image_cells(w: &mut HtmlWriter, items: &Vec<ImageItem<ImagePath>>)
    ensures
        final(w).spec_buf() == old(w).spec_buf() + render_image_cells(
            crate::diary_content::image_items_model(items@),
        ),
{
    let ghost all = crate::diary_content::image_items_model(items@);
    let ghost head0 = w.spec_buf();
    let mut i: usize = 0;
    proof {
        assert(all.subrange(0, 0) =~= Seq::<
            crate::diary_content::SpecImageItem<SpecImagePath>,
        >::empty());
    }
    while i < items.len()
        invariant
            i <= items@.len(),
            all == crate::diary_content::image_items_model(items@),
            w.spec_buf().len() >= head0.len(),
            w.spec_buf() == head0 + render_image_cells(all.subrange(0, i as int)),
        decreases items@.len() - i,
    {
        let ghost done = all.subrange(0, i as int);
        let data = &items[i].data;
        w.start("td");
        let actual = data.actual_path();
        let attrs_a: [(&str, &str); 1] = [("href", actual.as_str())];
        proof {
            assert(crate::html::attrs_model(attrs_a@) =~= seq![
                ("href"@, spec_actual_path(all[i as int].data)),
            ]);
        }
        w.start_attr("a", attrs_a.as_slice());
        let thumb = data.thumbnail_path();
        let ws = u32_to_string(data.width());
        let hs = u32_to_string(data.height());
        let attrs_img: [(&str, &str); 3] = [
            ("src", thumb.as_str()),
            ("width", ws.as_str()),
            ("height", hs.as_str()),
        ];
        proof {
            assert(crate::html::attrs_model(attrs_img@) =~= seq![
                ("src"@, spec_thumbnail_path(all[i as int].data)),
                ("width"@, dec_chars(all[i as int].data.width as nat)),
                ("height"@, dec_chars(all[i as int].data.height as nat)),
            ]);
        }
        w.start_attr("img", attrs_img.as_slice());
        w.end("a");
        w.end("td");
        i = i + 1;
        proof {
            let now = all.subrange(0, i as int);
            assert(now.drop_last() =~= done);
            assert(now.last() == all[i - 1]);
        }
    }
    proof {
        assert(all.subrange(0, all.len() as int) =~= all);
    }
}

/// Write the row of captions of a gallery.
#[verifier::rlimit(100)]
fn write_caption_cells(w: &mut HtmlWriter, items: &Vec<ImageItem<ImagePath>>)
    ensures
        final(w).spec_buf() == old(w).spec_buf() + render_caption_cells(
            crate::diary_content::image_items_model(items@),
        ),
{
    let ghost all = crate::diary_content::image_items_model(items@);
    let ghost head0 = w.spec_buf();
    let mut j: usize = 0;
    proof {
        assert(all.subrange(0, 0) =~= Seq::<
            crate::diary_content::SpecImageItem<SpecImagePath>,
        >::empty());
    }
    while j < items.len()
        invariant
            j <= items@.len(),
            all == crate::diary_content::image_items_model(items@),
            w.spec_buf().len() >= head0.len(),
            w.spec_buf() == head0 + render_caption_cells(all.subrange(0, j as int)),
        decreases items@.len() - j,
    {
        let ghost done = all.subrange(0, j as int);
        w.start("td");
        match &items[j].caption {
            Some(caption) => {
                w.raw(caption.as_str());
            },
            None => {},
        }
        w.end("td");
        j = j + 1;
        proof {
            let now = all.subrange(0, j as int);
            assert(now.drop_last() =~= done);
            assert(now.last() == all[j - 1]);
        }
    }
    proof {
        assert(all.subrange(0, all.len() as int) =~= all);
    }
}

} // verus!

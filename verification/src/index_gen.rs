//! The site's front page: one entry per year, linking to every month that
//! has diary pages.  The page is built as text; writing it to disk is the
//! caller's business.
use vstd::prelude::*;
use crate::html::{close_tag, open_tag, open_tag_attrs, HtmlWriter};
use crate::text::{dec_chars, dec_chars_pad, u32_pad, u32_to_string};

verus! {

/// The link entry for one month, newest months first; a month without pages
/// renders as nothing.
pub open spec fn render_months(year: u32, months: Seq<bool>) -> Seq<char>
    decreases months.len(),
{
    if months.len() == 0 {
        Seq::empty()
    } else {
        let month = months.len() as nat;
        (if months.last() {
            open_tag("ul"@) + open_tag("li"@) + open_tag_attrs(
                "a"@,
                seq![
                    (
                        "href"@,
                        "/"@ + dec_chars(year as nat) + "/"@ + dec_chars_pad(month, 2, 0x30),
                    ),
                ],
            ) + dec_chars(month) + "月"@ + close_tag("li"@) + close_tag("ul"@)
        } else {
            Seq::empty()
        }) + render_months(year, months.drop_last())
    }
}

/// The index entry for one year.
pub open spec fn render_year(year: u32, months: Seq<bool>) -> Seq<char> {
    open_tag("li"@) + dec_chars(year as nat) + "年"@ + render_months(year, months) + close_tag(
        "li"@,
    )
}

/// The index entries for all years, in the order given.
pub open spec fn render_years(years: Seq<(u32, Seq<bool>)>) -> Seq<char>
    decreases years.len(),
{
    if years.len() == 0 {
        Seq::empty()
    } else {
        render_years(years.drop_last()) + render_year(years.last().0, years.last().1)
    }
}

/// The whole index page.
pub open spec fn render_index(years: Seq<(u32, Seq<bool>)>) -> Seq<char> {
    "<!DOCTYPE html>"@ + open_tag_attrs("html"@, seq![("lang"@, "ja"@)]) + open_tag("head"@)
        + open_tag_attrs("meta"@, seq![("charset"@, "utf-8"@)]) + open_tag("title"@)
        + "Natuka.ge"@ + close_tag("title"@) + close_tag("head"@) + open_tag("body"@) + open_tag(
        "h1"@,
    ) + "Natuka.ge"@ + close_tag("h1"@) + open_tag("hr"@) + open_tag("ul"@) + render_years(years)
        + close_tag("ul"@) + close_tag("body"@) + close_tag("html"@)
}

/// The years listed on the index, each with its twelve month flags.
pub open spec fn years_model(v: Seq<(u32, Vec<bool>)>) -> Seq<(u32, Seq<bool>)> {
    v.map_values(|p: (u32, Vec<bool>)| (p.0, p.1@))
}

/// Build the index page for the given years, in the order given (the caller
/// passes them oldest first).  Each year carries one flag per month.
#[verifier::rlimit(60)]
pub fn generate_index(years: &Vec<(u32, Vec<bool>)>) -> (r: String)
    requires
        forall|i: int| 0 <= i < years@.len() ==> (#[trigger] years@[i].1)@.len() == 12,
    ensures
        r@ == render_index(years_model(years@)),
{
    let mut w = HtmlWriter::new();
    w.doctype();
    let attrs_lang: [(&str, &str); 1] = [("lang", "ja")];
    w.start_attr("html", attrs_lang.as_slice());
    w.start("head");
    let attrs_charset: [(&str, &str); 1] = [("charset", "utf-8")];
    w.start_attr("meta", attrs_charset.as_slice());
    w.start("title");
    w.raw("Natuka.ge");
    w.end("title");
    w.end("head");
    w.start("body");
    w.start("h1");
    w.raw("Natuka.ge");
    w.end("h1");
    w.start("hr");
    w.start("ul");
    proof {
        assert(crate::html::attrs_model(attrs_lang@) =~= seq![("lang"@, "ja"@)]);
        assert(crate::html::attrs_model(attrs_charset@) =~= seq![("charset"@, "utf-8"@)]);
    }
    let ghost head0 = w.spec_buf();
    let mut i: usize = 0;
    proof {
        assert(years_model(years@.subrange(0, 0)) =~= Seq::<(u32, Seq<bool>)>::empty());
    }
    while i < years.len()
        invariant
            i <= years@.len(),
            w.spec_buf() == head0 + render_years(years_model(years@.subrange(0, i as int))),
        decreases years@.len() - i,
    {
        let ghost done = years_model(years@.subrange(0, i as int));
        let year = years[i].0;
        write_year(&mut w, year, &years[i].1);
        i = i + 1;
        proof {
            let now = years_model(years@.subrange(0, i as int));
            assert(now.drop_last() =~= done);
            assert(now.last() == (years@[i - 1].0, years@[i - 1].1@));
            assert(w.spec_buf() =~= head0 + (render_years(done) + render_year(
                years@[i - 1].0,
                years@[i - 1].1@,
            )));
        }
    }
    proof {
        assert(years@.subrange(0, years@.len() as int) =~= years@);
    }
    w.end("ul");
    w.end("body");
    w.end("html");
    proof {
        assert(w.spec_buf() =~= render_index(years_model(years@)));
    }
    w.into_string()
}

/// Write one year's entry: the year, then its months, newest first.
#[verifier::rlimit(60)]
fn write_year(w: &mut HtmlWriter, year: u32, months: &Vec<bool>)
    requires
        months@.len() == 12,
    ensures
        final(w).spec_buf() == old(w).spec_buf() + render_year(year, months@),
{
    w.start("li");
    let y = u32_to_string(year);
    w.raw(y.as_str());
    w.raw("年");
    let ghost head0 = w.spec_buf();
    let mut i: usize = months.len();
    proof {
        assert(months@.subrange(0, months@.len() as int) =~= months@);
    }
    while i > 0
        invariant
            i <= months@.len(),
            w.spec_buf().len() >= head0.len(),
            head0 == w.spec_buf().subrange(0, head0.len() as int),
            render_months(year, months@) == w.spec_buf().subrange(
                head0.len() as int,
                w.spec_buf().len() as int,
            ) + render_months(year, months@.subrange(0, i as int)),
        decreases i,
    {
        let ghost sofar = w.spec_buf().subrange(head0.len() as int, w.spec_buf().len() as int);
        let ghost prefix = months@.subrange(0, i as int);
        if months[i - 1] {
            w.start("ul");
            w.start("li");
            let mut href = String::new();
            crate::text::push_str(&mut href, "/");
            let ys = u32_to_string(year);
            crate::text::push_str(&mut href, ys.as_str());
            crate::text::push_str(&mut href, "/");
            let ms = u32_pad(i as u32, 2, 0x30);
            crate::text::push_str(&mut href, ms.as_str());
            let attrs: [(&str, &str); 1] = [("href", href.as_str())];
            proof {
                assert(href@ =~= "/"@ + dec_chars(year as nat) + "/"@ + dec_chars_pad(
                    i as nat,
                    2,
                    0x30,
                ));
                assert(crate::html::attrs_model(attrs@) =~= seq![
                    ("href"@, "/"@ + dec_chars(year as nat) + "/"@ + dec_chars_pad(i as nat, 2, 0x30)),
                ]);
            }
            w.start_attr("a", attrs.as_slice());
            let mn = u32_to_string(i as u32);
            w.raw(mn.as_str());
            w.raw("月");
            w.end("li");
            w.end("ul");
        }
        i = i - 1;
        proof {
            assert(prefix.last() == months@[i as int]);
            assert(prefix.drop_last() =~= months@.subrange(0, i as int));
            assert(head0 =~= w.spec_buf().subrange(0, head0.len() as int));
            let now = w.spec_buf().subrange(head0.len() as int, w.spec_buf().len() as int);
            if months@[i as int] {
                assert(now =~= sofar + (open_tag("ul"@) + open_tag("li"@) + open_tag_attrs(
                    "a"@,
                    seq![
                        (
                            "href"@,
                            "/"@ + dec_chars(year as nat) + "/"@ + dec_chars_pad(
                                (i + 1) as nat,
                                2,
                                0x30,
                            ),
                        ),
                    ],
                ) + dec_chars((i + 1) as nat) + "月"@ + close_tag("li"@) + close_tag("ul"@)));
            } else {
                assert(now =~= sofar);
            }
            assert(render_months(year, months@) =~= now + render_months(
                year,
                months@.subrange(0, i as int),
            ));
        }
    }
    proof {
        assert(months@.subrange(0, 0) =~= Seq::<bool>::empty());
        assert(w.spec_buf() =~= head0 + render_months(year, months@));
    }
    w.end("li");
    proof {
        assert(w.spec_buf() =~= old(w).spec_buf() + render_year(year, months@));
    }
}

} // verus!

use natukage::albums::parse_albums;
use natukage::albums_gen::generate_albums;
use natukage::date::Date;
use natukage::diary_content::{Document, ImageItem, Images, Item, TextItem};
use natukage::html::HtmlWriter;
use natukage::image::{ImageName, ImagePath, ImageSize};
use natukage::index_gen::generate_index;
use natukage::post_gen::generate_monthly;
use natukage::sexp::{Expression, SExpParser};
use natukage::string_reader::StringReader;
use natukage::syntax_error::Error;
use natukage::text::{str_le, u32_pad, u32_to_string};

fn parse(txt: &str) -> Expression {
    let reader = StringReader::new(txt.as_bytes().to_vec()).unwrap();
    let mut parser = SExpParser::new(reader);
    parser.parse_expression().unwrap()
}

#[test]
fn date_validity() {
    assert!(Date::new(2023, 2, 29).is_none());
    assert!(Date::new(2024, 2, 29).is_some());
    assert!(Date::new(1900, 2, 29).is_none());
    assert!(Date::new(2000, 2, 29).is_some());
    assert!(Date::new(2023, 13, 1).is_none());
    assert!(Date::new(2023, 0, 1).is_none());
    assert!(Date::new(2023, 4, 31).is_none());
    assert!(Date::new(2023, 4, 30).is_some());
    assert!(Date::new(2023, 12, 0).is_none());
}

#[test]
fn date_accessors() {
    let d = Date::new(2021, 5, 4).unwrap();
    assert_eq!(2021, d.year());
    assert_eq!(5, d.month());
    assert_eq!(4, d.day());
}

#[test]
fn weekday_names() {
    assert_eq!("水", Date::new(2023, 10, 11).unwrap().weekday_ja());
    assert_eq!("日", Date::new(2023, 12, 31).unwrap().weekday_ja());
    assert_eq!("火", Date::new(2021, 3, 2).unwrap().weekday_ja());
    assert_eq!("日", Date::new(2021, 2, 27).unwrap().weekday_ja());
}

#[test]
fn number_formatting() {
    assert_eq!("0", u32_to_string(0));
    assert_eq!("1234567890", u32_to_string(1234567890));
    assert_eq!("4294967295", u32_to_string(u32::MAX));
    assert_eq!("07", u32_pad(7, 2, b'0'));
    assert_eq!("123", u32_pad(123, 2, b'0'));
    assert_eq!("  42", u32_pad(42, 4, b' '));
    assert_eq!("0007", u32_pad(7, 4, b'0'));
}

#[test]
fn string_byte_order() {
    assert!(str_le("abc", "abd"));
    assert!(str_le("ab", "abc"));
    assert!(str_le("abc", "abc"));
    assert!(!str_le("b", "ab"));
    assert!(!str_le("abd", "abc"));
}

#[test]
fn html_writer_builds_tags() {
    let mut w = HtmlWriter::new();
    w.doctype();
    w.start("p");
    w.raw("text");
    w.end("p");
    let attrs = [("href", "/x"), ("rel", "me")];
    w.start_attr("a", &attrs);
    w.end("a");
    assert_eq!(
        "<!DOCTYPE html><p>text</p><a href=\"/x\" rel=\"me\"></a>",
        w.into_string()
    );
}

#[test]
fn image_paths() {
    let path = ImagePath::new(ImageName::new("pic".to_string()), ImageSize::new(300, 96));
    assert_eq!(300, path.width());
    assert_eq!(96, path.height());
    assert_eq!("/img/pic-thumb.jpeg", path.thumbnail_path());
    assert_eq!("/img/pic.webp", path.actual_path());
    let name = ImageName::new("pic".to_string());
    assert_eq!("pic-thumb.jpeg", name.thumbnail_name());
    assert_eq!("pic.webp", name.actual_name());
    assert_eq!("pic.xxh3", name.hash_name());
}

#[test]
fn index_page() {
    let mut months = vec![false; 12];
    months[1] = true;
    months[11] = true;
    let years = vec![(2021u32, months)];
    let html = generate_index(&years);
    assert_eq!(
        "<!DOCTYPE html><html lang=\"ja\"><head><meta charset=\"utf-8\"><title>Natuka.ge</title>\
         </head><body><h1>Natuka.ge</h1><hr><ul>\
         <li>2021年\
         <ul><li><a href=\"/2021/12\">12月</li></ul>\
         <ul><li><a href=\"/2021/02\">2月</li></ul>\
         </li></ul></body></html>",
        html
    );
}

#[test]
fn monthly_page() {
    let doc: Document<ImagePath> = Document::new(vec![
        Item::Header("T".to_string()),
        Item::Text(vec![
            TextItem::RawString("a".to_string()),
            TextItem::Bold("b".to_string()),
            TextItem::PostLink((2020, 6, 7)),
        ]),
    ]);
    let docs = vec![None, Some(doc)];
    let html = generate_monthly(2021, 3, docs);
    assert_eq!(
        "<!DOCTYPE html><html lang=\"ja\"><head><meta charset=\"utf-8\">\
         <title>Natuka.ge - 2021/03</title></head><body><h1>Natuka.ge - 2021/03</h1>\
         <a href=\"/\">ホーム</a>へ<hr><dl>\
         <dt><h2 id=\"2\"><a href=\"#2\">2021/03/02 (火)</a></h2></dt>\
         <dd><h3>T</h3><p>a<b>b</b>(ref. <a href=\"/2020/06#07\">2020/06/07</a>)</p></dd>\
         </dl></body></html>",
        html
    );
}

#[test]
fn monthly_page_with_images_and_lists() {
    let pic = ImagePath::new(ImageName::new("pic".to_string()), ImageSize::new(300, 96));
    let doc: Document<ImagePath> = Document::new(vec![
        Item::List(vec![
            Item::Text(vec![TextItem::Code("c".to_string())]),
            Item::List(vec![Item::Text(vec![TextItem::WebLink(
                natukage::diary_content::WebLink {
                    title: "t".to_string(),
                    href: "/u".to_string(),
                },
            )])]),
        ]),
        Item::Images(Images {
            title: "g".to_string(),
            items: vec![ImageItem {
                data: pic,
                caption: Some("cap".to_string()),
            }],
        }),
    ]);
    let docs = vec![Some(doc)];
    let html = generate_monthly(2021, 3, docs);
    assert_eq!(
        "<!DOCTYPE html><html lang=\"ja\"><head><meta charset=\"utf-8\">\
         <title>Natuka.ge - 2021/03</title></head><body><h1>Natuka.ge - 2021/03</h1>\
         <a href=\"/\">ホーム</a>へ<hr><dl>\
         <dt><h2 id=\"1\"><a href=\"#1\">2021/03/01 (月)</a></h2></dt>\
         <dd><ul><li><code>c</code></li><ul><li><a href=\"/u\">t</a></li></ul></ul>\
         g<table><tbody><tr><td><a href=\"/img/pic.webp\">\
         <img src=\"/img/pic-thumb.jpeg\" width=\"300\" height=\"96\"></a></td></tr>\
         <tr><td>cap</td></tr></tbody></table></dd>\
         </dl></body></html>",
        html
    );
}

#[test]
fn albums_are_resolved_and_sorted() {
    let index = parse_albums(parse(
        r#"((artist "B" (studio "S1" (2020 1 2)) (concert "C1" (2019 5 6) (2019 6 7)))
            (artist "A" (studio "S2" (2021 3 4))))"#,
    ))
    .unwrap();
    // two releases beat one; within equal counts names would decide
    assert_eq!("B", index.0[0].name());
    assert_eq!("A", index.0[1].name());
    let b = index.0[0].albums();
    assert_eq!(2, b.len());
    assert_eq!("S1", b.studio_album()[0].name());
    assert_eq!("C1", b.live()[0].name());
    let link = b.live()[0].link_to_diary().unwrap();
    assert_eq!((2019, 6, 7), (link.year(), link.month(), link.day()));
    assert!(b.studio_album()[0].link_to_diary().is_none());
}

#[test]
fn albums_buckets_sort_by_date() {
    let index = parse_albums(parse(
        r#"((artist "A" (studio "Late" (2021 1 1)) (studio "Early" (2019 1 1))))"#,
    ))
    .unwrap();
    let a = index.0[0].albums();
    assert_eq!("Early", a.studio_album()[0].name());
    assert_eq!("Late", a.studio_album()[1].name());
}

#[test]
fn artists_tie_breaks_on_name() {
    let index = parse_albums(parse(
        r#"((artist "B" (studio "X" (2020 1 1))) (artist "A" (studio "Y" (2020 1 1))))"#,
    ))
    .unwrap();
    assert_eq!("A", index.0[0].name());
    assert_eq!("B", index.0[1].name());
}

#[test]
fn albums_errors() {
    assert_eq!(
        Error::OperandMismatch,
        parse_albums(parse(r#"((artist))"#)).unwrap_err()
    );
    assert_eq!(
        Error::IllegalElement,
        parse_albums(parse(r#"((artist 5))"#)).unwrap_err()
    );
    assert_eq!(
        Error::UnknownOperator("band".to_string()),
        parse_albums(parse(r#"((band "A"))"#)).unwrap_err()
    );
    // a date that does not exist in the calendar
    assert_eq!(
        Error::IllegalElement,
        parse_albums(parse(r#"((artist "A" (studio "S" (2020 13 1))))"#)).unwrap_err()
    );
}

#[test]
fn albums_page() {
    let index = parse_albums(parse(r#"((artist "A" (studio "S" (2020 1 2) (2020 3 4))))"#))
        .unwrap();
    let html = generate_albums(index);
    assert_eq!(
        "<!DOCTYPE html><html lang=\"ja\"><head><meta charset=\"utf-8\">\
         <title>Natuka.ge - Albums</title></head><body><h1>Natuka.ge - Albums</h1>\
         <a href=\"/\">ホーム</a>へ<hr><dl>\
         <dt><h2>A</h2></dt><dd><h3>Studio albums</h3><ul>\
         <li>S (<a href=\"/2020/03#04\">2020/03/04</a>)</li></ul></dd>\
         </dl></body></html>",
        html
    );
}

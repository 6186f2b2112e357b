use natukage::diary_content::{parse_diary_content, Item, TextItem, WebLink};
use natukage::image::{ImageName, ImagePath, ImageSize};
use natukage::image_pass::{collect_image_data, replace_image_data};
use natukage::sexp::{Expression, SExpParser};
use natukage::string_reader::StringReader;
use natukage::syntax_error::Error;

fn parse(txt: &str) -> Expression {
    let reader = StringReader::new(txt.as_bytes().to_vec()).unwrap();
    let mut parser = SExpParser::new(reader);
    parser.parse_expression().unwrap()
}

#[test]
fn resolve_header() {
    let doc = parse_diary_content(parse(r#"((h "Title"))"#)).unwrap();
    assert_eq!(
        &vec![Item::Header("Title".to_string())],
        doc.contents()
    );
}

#[test]
fn resolve_header_long_keyword() {
    let doc = parse_diary_content(parse(r#"((header "Title"))"#)).unwrap();
    assert_eq!(&vec![Item::Header("Title".to_string())], doc.contents());
}

#[test]
fn resolve_header_with_extra_operand() {
    assert_eq!(
        Error::OperandMismatch,
        parse_diary_content(parse(r#"((h "A" "B"))"#)).unwrap_err()
    );
}

#[test]
fn resolve_header_with_no_operand() {
    assert_eq!(
        Error::OperandMismatch,
        parse_diary_content(parse(r#"((h))"#)).unwrap_err()
    );
}

#[test]
fn resolve_header_with_wrong_variant() {
    assert_eq!(
        Error::IllegalElement,
        parse_diary_content(parse(r#"((header 5))"#)).unwrap_err()
    );
}

#[test]
fn resolve_text_spans() {
    let doc = parse_diary_content(parse(r#"((txt "a" (b "bold") (a "link" "http://x")))"#))
        .unwrap();
    assert_eq!(
        &vec![Item::Text(vec![
            TextItem::RawString("a".to_string()),
            TextItem::Bold("bold".to_string()),
            TextItem::WebLink(WebLink {
                title: "link".to_string(),
                href: "http://x".to_string(),
            }),
        ])],
        doc.contents()
    );
}

#[test]
fn resolve_unknown_operator() {
    assert_eq!(
        Error::UnknownOperator("foo".to_string()),
        parse_diary_content(parse(r#"((foo))"#)).unwrap_err()
    );
}

#[test]
fn resolve_empty_tuple_item() {
    assert_eq!(
        Error::MissingOperator,
        parse_diary_content(parse(r#"(())"#)).unwrap_err()
    );
}

#[test]
fn resolve_is_a_pure_function_of_the_tree() {
    let txt = r#"((h "T") "para" (li "x" (txt "y" (p 2021 5 4)) (li `code`)) (img "g" ("a.webp") ("b.webp" "cap")))"#;
    let d1 = parse_diary_content(parse(txt)).unwrap();
    let d2 = parse_diary_content(parse(txt)).unwrap();
    assert_eq!(d1, d2);
}

#[test]
fn resolve_non_tuple_root() {
    assert_eq!(
        Error::IllegalElement,
        parse_diary_content(parse("42")).unwrap_err()
    );
}

#[test]
fn resolve_bare_strings_become_paragraphs() {
    let doc = parse_diary_content(parse(r#"("plain" `mono`)"#)).unwrap();
    assert_eq!(
        &vec![
            Item::Text(vec![TextItem::RawString("plain".to_string())]),
            Item::Text(vec![TextItem::Code("mono".to_string())]),
        ],
        doc.contents()
    );
}

#[test]
fn resolve_post_reference() {
    let doc = parse_diary_content(parse(r#"((txt (p 2021 12 31)))"#)).unwrap();
    assert_eq!(
        &vec![Item::Text(vec![TextItem::PostLink((2021, 12, 31))])],
        doc.contents()
    );
}

#[test]
fn resolve_code_keyword() {
    let doc = parse_diary_content(parse(r#"((txt (code "x = 1")))"#)).unwrap();
    assert_eq!(
        &vec![Item::Text(vec![TextItem::Code("x = 1".to_string())])],
        doc.contents()
    );
}

#[test]
fn resolve_post_with_too_few_operands() {
    assert_eq!(
        Error::OperandMismatch,
        parse_diary_content(parse(r#"((txt (p 2021 12)))"#)).unwrap_err()
    );
}

#[test]
fn resolve_weblink_with_extra_operand() {
    assert_eq!(
        Error::OperandMismatch,
        parse_diary_content(parse(r#"((txt (a "t" "h" "x")))"#)).unwrap_err()
    );
}

#[test]
fn resolve_nested_lists() {
    let doc = parse_diary_content(parse(r#"((li "a" (li "b")))"#)).unwrap();
    assert_eq!(
        &vec![Item::List(vec![
            Item::Text(vec![TextItem::RawString("a".to_string())]),
            Item::List(vec![Item::Text(vec![TextItem::RawString("b".to_string())])]),
        ])],
        doc.contents()
    );
}

#[test]
fn resolve_header_inside_list_is_illegal() {
    assert_eq!(
        Error::IllegalElement,
        parse_diary_content(parse(r#"((li (h "no")))"#)).unwrap_err()
    );
}

#[test]
fn resolve_images_with_optional_captions() {
    let doc = parse_diary_content(parse(r#"((img "gallery" ("a.webp") ("b.webp" "a cat")))"#))
        .unwrap();
    match &doc.contents()[0] {
        Item::Images(images) => {
            assert_eq!("gallery", images.title);
            assert_eq!("a.webp", images.items[0].data);
            assert_eq!(None, images.items[0].caption);
            assert_eq!("b.webp", images.items[1].data);
            assert_eq!(Some("a cat".to_string()), images.items[1].caption);
        }
        other => panic!("expected an image gallery, got {:?}", other),
    }
}

#[test]
fn resolve_image_item_with_extra_element() {
    assert_eq!(
        Error::OperandMismatch,
        parse_diary_content(parse(r#"((img "g" ("a" "b" "c")))"#)).unwrap_err()
    );
}

#[test]
fn resolve_image_without_title() {
    assert_eq!(
        Error::OperandMismatch,
        parse_diary_content(parse(r#"((img))"#)).unwrap_err()
    );
}

#[test]
fn resolve_integer_item_is_illegal() {
    assert_eq!(
        Error::IllegalElement,
        parse_diary_content(parse(r#"(7)"#)).unwrap_err()
    );
}

#[test]
fn resolve_non_literal_operator() {
    assert_eq!(
        Error::IllegalElement,
        parse_diary_content(parse(r#"((5 "x"))"#)).unwrap_err()
    );
}

#[test]
fn image_pass_collects_and_replaces_in_order() {
    let doc = parse_diary_content(parse(
        r#"((img "g1" ("a.webp") ("b.webp" "cap")) (li (img "g2" ("c.webp"))) "text")"#,
    ))
    .unwrap();
    let names = collect_image_data(&doc);
    assert_eq!(vec!["a.webp", "b.webp", "c.webp"], names);

    let assets: Vec<ImagePath> = names
        .iter()
        .enumerate()
        .map(|(i, n)| {
            ImagePath::new(
                ImageName::new(n.trim_end_matches(".webp").to_string()),
                ImageSize::new(100 + i as u32, 50),
            )
        })
        .collect();
    let resolved = replace_image_data(doc, assets);
    match &resolved.contents()[0] {
        Item::Images(images) => {
            assert_eq!("g1", images.title);
            assert_eq!("/img/a.webp", images.items[0].data.actual_path());
            assert_eq!(100, images.items[0].data.width());
            assert_eq!(None, images.items[0].caption);
            assert_eq!("/img/b.webp", images.items[1].data.actual_path());
            assert_eq!(Some("cap".to_string()), images.items[1].caption);
        }
        other => panic!("expected a gallery, got {:?}", other),
    }
    match &resolved.contents()[1] {
        Item::List(members) => match &members[0] {
            Item::Images(images) => {
                assert_eq!("/img/c.webp", images.items[0].data.actual_path());
                assert_eq!(102, images.items[0].data.width());
            }
            other => panic!("expected a nested gallery, got {:?}", other),
        },
        other => panic!("expected a list, got {:?}", other),
    }
}

use transtractor_rs::error::ParseError;
use transtractor_rs::pdf_extractor::{coordinates_fit_in_i32, extract_text_items_from_page_texts};
use transtractor_rs::text_item::TextItem;

fn pages(texts: &[&str]) -> Vec<String> {
    texts.iter().map(|t| t.to_string()).collect()
}

fn boxes(items: &[TextItem]) -> Vec<(String, i32, i32, i32, i32, i32)> {
    items
        .iter()
        .map(|i| (i.text.clone(), i.x1, i.y1, i.x2, i.y2, i.page))
        .collect()
}

#[test]
fn non_blank_lines_become_stacked_items() {
    let p = pages(&["Account 123\n\n  \nBalance $5", "", "Page two\r\nend\r\n"]);
    assert!(coordinates_fit_in_i32(&p));
    let items = extract_text_items_from_page_texts(&p).unwrap();
    assert_eq!(
        boxes(&items),
        vec![
            ("Account 123".to_string(), 0, 0, 77, 12, 0),
            ("Balance $5".to_string(), 0, 12, 70, 24, 0),
            ("Page two".to_string(), 0, 24, 56, 36, 2),
            ("end".to_string(), 0, 36, 21, 48, 2),
        ]
    );
}

#[test]
fn width_counts_utf8_bytes() {
    let p = pages(&["Café"]);
    let items = extract_text_items_from_page_texts(&p).unwrap();
    assert_eq!(boxes(&items), vec![("Café".to_string(), 0, 0, 35, 12, 0)]);
}

#[test]
fn line_keeps_its_inner_white_space() {
    let p = pages(&["  indented\t"]);
    let items = extract_text_items_from_page_texts(&p).unwrap();
    assert_eq!(items[0].text, "  indented\t");
    assert_eq!(items[0].x2, 7 * 11);
}

#[test]
fn no_pages_give_pdf_error() {
    match extract_text_items_from_page_texts(&Vec::new()) {
        Err(ParseError::PdfError(m)) => assert_eq!(m, "No text extracted from PDF"),
        other => panic!("unexpected {:?}", other),
    }
}

#[test]
fn blank_pages_give_pdf_error() {
    let p = pages(&["   \n\t\n", "\u{3000}", ""]);
    match extract_text_items_from_page_texts(&p) {
        Err(ParseError::PdfError(m)) => assert_eq!(m, "No text extracted from PDF"),
        other => panic!("unexpected {:?}", other),
    }
}

#[test]
fn items_come_in_reading_order() {
    let p = pages(&["a\nb", "c", "", "d\ne\nf"]);
    let items = extract_text_items_from_page_texts(&p).unwrap();
    for w in items.windows(2) {
        assert_eq!(w[0].y2, w[1].y1);
        assert!(w[0].page <= w[1].page);
    }
    let texts: Vec<&str> = items.iter().map(|i| i.text.as_str()).collect();
    assert_eq!(texts, vec!["a", "b", "c", "d", "e", "f"]);
}

#[test]
fn extraction_is_deterministic() {
    let p = pages(&["x\ny", "z"]);
    let a = extract_text_items_from_page_texts(&p).unwrap();
    let b = extract_text_items_from_page_texts(&p).unwrap();
    assert_eq!(boxes(&a), boxes(&b));
}

#[test]
fn text_item_new_keeps_its_fields() {
    let i = TextItem::new("Account".to_string(), 100, 50, 150, 60, 0);
    assert_eq!((i.text.as_str(), i.x1, i.y1, i.x2, i.y2, i.page), ("Account", 100, 50, 150, 60, 0));
}

#[test]
fn items_hold_non_blank_lines_of_their_page() {
    let p = pages(&["head\n \nbody", "\t\nfoot"]);
    let items = extract_text_items_from_page_texts(&p).unwrap();
    assert_eq!(items.len(), 3);
    for item in &items {
        assert!(!item.text.trim().is_empty());
        assert!(p[item.page as usize].lines().any(|l| l == item.text));
    }
}

use lopdf::content::{Content, Operation};
use lopdf::{Dictionary, Document, Object, Stream, StringFormat};
use pdf_core::text::{extract_text_from_object, is_blank, page_text, pdf_to_word};

fn text(s: &str) -> Object {
    Object::String(s.as_bytes().to_vec(), StringFormat::Literal)
}

fn operations_of(doc: &Document) -> Vec<Option<Vec<Operation>>> {
    doc.get_pages()
        .values()
        .map(|id| {
            let data = doc.get_page_content(*id).ok()?;
            Content::decode(&data).ok().map(|content| content.operations)
        })
        .collect()
}

fn document_of(pages: Vec<Vec<u8>>) -> Document {
    let mut doc = Document::with_version("1.5");
    let pages_id = doc.new_object_id();
    let mut kids = Vec::new();
    for content in pages {
        let stream_id = doc.add_object(Stream::new(Dictionary::new(), content));
        let mut page = Dictionary::new();
        page.set("Type", "Page");
        page.set("Parent", Object::Reference(pages_id));
        page.set("Contents", Object::Reference(stream_id));
        kids.push(Object::Reference(doc.add_object(page)));
    }
    let mut node = Dictionary::new();
    node.set("Type", "Pages");
    node.set("Count", kids.len() as i64);
    node.set("Kids", kids);
    doc.objects.insert(pages_id, Object::Dictionary(node));
    let mut catalog = Dictionary::new();
    catalog.set("Type", "Catalog");
    catalog.set("Pages", Object::Reference(pages_id));
    let catalog_id = doc.add_object(catalog);
    doc.trailer.set("Root", Object::Reference(catalog_id));
    doc
}

fn shown(words: &str) -> Vec<u8> {
    let content = Content {
        operations: vec![
            Operation::new("BT", vec![]),
            Operation::new("Tj", vec![text(words)]),
            Operation::new("ET", vec![]),
        ],
    };
    content.encode().unwrap()
}

#[test]
fn a_string_operand_has_its_characters_as_text() {
    assert_eq!(extract_text_from_object(&text("Hello")), Ok(String::from("Hello")));
    assert_eq!(extract_text_from_object(&text("")), Ok(String::new()));
    let hex = Object::String(vec![0x41, 0x42], StringFormat::Hexadecimal);
    assert_eq!(extract_text_from_object(&hex), Ok(String::from("AB")));
}

#[test]
fn bytes_that_are_no_utf8_become_replacement_characters() {
    let broken = Object::String(vec![0x48, 0xff, 0x69], StringFormat::Literal);
    assert_eq!(extract_text_from_object(&broken), Ok(String::from("H\u{fffd}i")));
}

#[test]
fn an_array_operand_has_the_texts_of_its_items() {
    let array = Object::Array(vec![
        text("Hel"),
        Object::Integer(-120),
        text("lo"),
        Object::Array(vec![text(", "), Object::Null, text("world")]),
        Object::Name(b"Skipped".to_vec()),
    ]);
    assert_eq!(extract_text_from_object(&array), Ok(String::from("Hello, world")));
    assert_eq!(extract_text_from_object(&Object::Array(vec![])), Ok(String::new()));
}

#[test]
fn other_operands_have_no_text() {
    assert_eq!(extract_text_from_object(&Object::Integer(4)), Err(()));
    assert_eq!(extract_text_from_object(&Object::Null), Err(()));
    assert_eq!(extract_text_from_object(&Object::Name(b"F1".to_vec())), Err(()));
    assert_eq!(extract_text_from_object(&Object::Reference((1, 0))), Err(()));
}

#[test]
fn the_text_of_a_page_comes_from_the_operators_that_show_text() {
    let operations = vec![
        Operation::new("BT", vec![]),
        Operation::new("Tf", vec![Object::Name(b"F1".to_vec()), Object::Integer(12)]),
        Operation::new("Tj", vec![text("one")]),
        Operation::new("TJ", vec![Object::Array(vec![text("t"), Object::Integer(3), text("wo")])]),
        Operation::new("'", vec![text("three")]),
        Operation::new("\"", vec![Object::Integer(1), Object::Integer(2), text("four")]),
        Operation::new("ET", vec![]),
        Operation::new("Do", vec![text("never shown")]),
        Operation::new("BT", vec![]),
        Operation::new("Tj", vec![text("five")]),
        Operation::new("ET", vec![]),
    ];
    assert_eq!(page_text(&operations), "onetwothreefour five ");
    assert_eq!(page_text(&Vec::new()), "");
}

#[test]
fn the_paragraphs_are_the_pages_that_have_text() {
    let doc = document_of(vec![
        shown("first"),
        b"BT ET".to_vec(),
        Vec::new(),
        shown("second"),
        b"(unfinished".to_vec(),
        shown("   "),
    ]);
    let pages = operations_of(&doc);
    assert_eq!(pages.len(), 6);
    assert_eq!(pdf_to_word(&pages), vec!["first ", "second "]);
}

#[test]
fn a_page_without_operations_is_no_paragraph() {
    let content = Content::decode(&shown("kept")).unwrap();
    let pages = vec![None, Some(content.operations), None, Some(Vec::new())];
    assert_eq!(pdf_to_word(&pages), vec!["kept "]);
    assert_eq!(pdf_to_word(&Vec::new()), Vec::<String>::new());
}

#[test]
fn the_word_document_holds_the_text_of_the_pages() {
    let doc = document_of(vec![shown("Hello"), shown("  "), shown("World")]);
    assert_eq!(pdf_to_word(&operations_of(&doc)), vec!["Hello ", "World "]);
}

fn white_space() -> Vec<char> {
    let mut list = vec!['\u{20}', '\u{85}', '\u{a0}', '\u{1680}'];
    list.extend('\u{09}'..='\u{0d}');
    list.extend('\u{2000}'..='\u{200a}');
    list.extend(['\u{2028}', '\u{2029}', '\u{202f}', '\u{205f}', '\u{3000}']);
    list
}

#[test]
fn a_page_of_white_space_is_no_paragraph() {
    let blank: String = white_space().into_iter().collect();
    let almost = format!("{}\u{200b}", blank);
    let doc = document_of(vec![shown(&blank), shown(&almost), shown("\u{feff}")]);
    assert_eq!(
        pdf_to_word(&operations_of(&doc)),
        vec![format!("{} ", almost), String::from("\u{feff} ")]
    );
}

#[test]
fn blank_is_what_trimming_leaves_empty() {
    let list = white_space();
    assert_eq!(list.len(), 25);
    for code in 0..=0x10ffffu32 {
        if let Some(c) = char::from_u32(code) {
            let text = c.to_string();
            assert_eq!(is_blank(&text), text.trim().is_empty());
            assert_eq!(is_blank(&text), list.contains(&c));
        }
    }
    assert!(is_blank(""));
    assert!(is_blank(" \t\r\n\u{3000}"));
    assert!(!is_blank("  a  "));
    assert!(!is_blank("a"));
    assert!(!is_blank("   \u{200b}"));
}

use lopdf::content::{Content, Operation};
use lopdf::{Bookmark, Dictionary, Document, Object, ObjectId, Stream, StringFormat};
use pdf_core::engine::{
    get_page_count, merge_documents, merge_pdf, reorder_document, reorder_pages, split_document,
    split_pdf,
};
use pdf_core::error::PdfError;
use pdf_core::tree::rebuild_page_tree;

fn labelled_document(label: &str, pages: u32) -> Document {
    let mut doc = Document::with_version("1.5");
    let pages_id = doc.new_object_id();
    let mut font = Dictionary::new();
    font.set("Type", "Font");
    font.set("Subtype", "Type1");
    font.set("BaseFont", "Courier");
    let font_id = doc.add_object(font);
    let mut fonts = Dictionary::new();
    fonts.set("F1", Object::Reference(font_id));
    let mut resources = Dictionary::new();
    resources.set("Font", fonts);
    let resources_id = doc.add_object(resources);
    let mut page_ids = Vec::new();
    for i in 1..=pages {
        let content = Content {
            operations: vec![
                Operation::new("BT", vec![]),
                Operation::new("Tf", vec!["F1".into(), 48.into()]),
                Operation::new("Td", vec![100.into(), 600.into()]),
                Operation::new(
                    "Tj",
                    vec![Object::String(
                        format!("{} {}", label, i).into_bytes(),
                        StringFormat::Literal,
                    )],
                ),
                Operation::new("ET", vec![]),
            ],
        };
        let stream = Stream::new(Dictionary::new(), content.encode().unwrap());
        let stream_id = doc.add_object(stream);
        let mut page = Dictionary::new();
        page.set("Type", "Page");
        page.set("Parent", Object::Reference(pages_id));
        page.set("MediaBox", vec![0.into(), 0.into(), 595.into(), 842.into()]);
        page.set("Contents", Object::Reference(stream_id));
        page.set("Resources", Object::Reference(resources_id));
        let page_id = doc.add_object(page);
        page_ids.push(Object::Reference(page_id));
    }
    let mut pages_dict = Dictionary::new();
    pages_dict.set("Type", "Pages");
    pages_dict.set("Kids", page_ids);
    pages_dict.set("Count", pages as i32);
    doc.objects.insert(pages_id, Object::Dictionary(pages_dict));
    let mut catalog = Dictionary::new();
    catalog.set("Type", "Catalog");
    catalog.set("Pages", Object::Reference(pages_id));
    let catalog_id = doc.add_object(catalog);
    doc.trailer.set("Root", Object::Reference(catalog_id));
    doc
}

fn dummy_document(pages: u32) -> Document {
    labelled_document("Page", pages)
}

fn bytes_of(mut doc: Document) -> Vec<u8> {
    let mut out = Vec::new();
    doc.save_to(&mut out).unwrap();
    out
}

fn page_texts(doc: &Document) -> Vec<String> {
    let mut texts = Vec::new();
    for (_, id) in doc.get_pages() {
        let data = doc.get_page_content(id).unwrap();
        let content = Content::decode(&data).unwrap();
        for operation in content.operations {
            if operation.operator == "Tj" {
                let bytes = operation.operands[0].as_str().unwrap();
                texts.push(String::from_utf8_lossy(bytes).into_owned());
            }
        }
    }
    texts
}

fn kids_of(doc: &Document) -> Vec<ObjectId> {
    let catalog = doc.catalog().unwrap();
    let pages_id = catalog.get(b"Pages").unwrap().as_reference().unwrap();
    let pages = doc.get_dictionary(pages_id).unwrap();
    pages
        .get(b"Kids")
        .unwrap()
        .as_array()
        .unwrap()
        .iter()
        .map(|kid| kid.as_reference().unwrap())
        .collect()
}

#[test]
fn test_split_pdf() {
    let input = dummy_document(5);
    let result = split_pdf(input, "split", 1, 2).unwrap();
    assert_eq!(result.len(), 1);
    assert_eq!(result[0].name, "split_1-2.pdf");
    let doc = Document::load_mem(&result[0].data).unwrap();
    assert_eq!(doc.get_pages().len(), 2);
}

#[test]
fn test_merge_pdf() {
    let first = dummy_document(1);
    let second = dummy_document(2);
    let output = merge_pdf(vec![first, second]).unwrap();
    assert!(!output.is_empty());
    let doc = Document::load_mem(&output).unwrap();
    assert_eq!(doc.get_pages().len(), 3);
}

#[test]
fn split_keeps_the_pages_of_the_range() {
    let out = split_document(dummy_document(5), 2, 4).unwrap();
    assert_eq!(out.get_pages().len(), 3);
    assert_eq!(page_texts(&out), vec!["Page 2", "Page 3", "Page 4"]);
    let kids = kids_of(&out);
    assert_eq!(kids.len(), 3);
    let catalog = out.catalog().unwrap();
    let pages_id = catalog.get(b"Pages").unwrap().as_reference().unwrap();
    let pages = out.get_dictionary(pages_id).unwrap();
    assert_eq!(pages.get(b"Count").unwrap().as_i64().unwrap(), 3);
    for kid in kids {
        let page = out.get_dictionary(kid).unwrap();
        assert_eq!(page.get(b"Parent").unwrap().as_reference().unwrap(), pages_id);
    }
}

#[test]
fn split_of_every_valid_range_has_its_length() {
    for start in 1..=4u32 {
        for end in start..=4u32 {
            let out = split_document(dummy_document(4), start, end).unwrap();
            assert_eq!(out.get_pages().len() as u32, end - start + 1);
        }
    }
}

#[test]
fn split_of_a_single_page() {
    let out = split_document(dummy_document(3), 3, 3).unwrap();
    assert_eq!(page_texts(&out), vec!["Page 3"]);
}

#[test]
fn split_drops_what_the_pages_do_not_need() {
    let before = dummy_document(5);
    let count_before = before.objects.len();
    let out = split_document(before, 1, 2).unwrap();
    // two pages, two content streams, font, resources, page tree node, catalog
    assert_eq!(out.objects.len(), 8);
    assert!(out.objects.len() < count_before);
}

#[test]
fn split_refuses_a_start_of_zero() {
    match split_document(dummy_document(5), 0, 2) {
        Err(PdfError::InvalidPage(n)) => assert_eq!(n, 0),
        _ => panic!("a start of zero was accepted"),
    }
    match split_pdf(dummy_document(5), "split", 0, 2) {
        Err(PdfError::InvalidPage(n)) => assert_eq!(n, 0),
        _ => panic!("a start of zero was accepted"),
    }
}

#[test]
fn split_refuses_an_end_beyond_the_last_page() {
    match split_document(dummy_document(5), 2, 6) {
        Err(PdfError::InvalidPage(n)) => assert_eq!(n, 6),
        _ => panic!("an end beyond the last page was accepted"),
    }
}

#[test]
fn split_refuses_a_start_beyond_the_end() {
    match split_document(dummy_document(5), 4, 3) {
        Err(PdfError::InvalidPage(n)) => assert_eq!(n, 4),
        _ => panic!("a start beyond the end was accepted"),
    }
}

#[test]
fn split_reports_the_first_bound_at_fault() {
    match split_document(dummy_document(5), 0, 9) {
        Err(PdfError::InvalidPage(n)) => assert_eq!(n, 0),
        _ => panic!("a range at fault was accepted"),
    }
    match split_document(dummy_document(5), 8, 7) {
        Err(PdfError::InvalidPage(n)) => assert_eq!(n, 7),
        _ => panic!("a range at fault was accepted"),
    }
}

#[test]
fn split_refuses_a_full_counter() {
    let mut doc = dummy_document(2);
    doc.max_id = u32::MAX - 3;
    match split_document(doc, 1, 1) {
        Err(PdfError::Operation(text)) => assert_eq!(text, "Object identifiers exhausted"),
        _ => panic!("a full counter was accepted"),
    }
}

#[test]
fn merge_keeps_the_order_of_the_documents() {
    let first = labelled_document("A", 1);
    let second = labelled_document("B", 2);
    let out = merge_documents(vec![first, second]).unwrap();
    assert_eq!(out.get_pages().len(), 3);
    assert_eq!(page_texts(&out), vec!["A 1", "B 1", "B 2"]);
}

#[test]
fn merge_keeps_the_order_of_the_pages_of_a_reordered_document() {
    let first = reorder_document(labelled_document("A", 3), &vec![3, 1, 2]).unwrap();
    assert_eq!(page_texts(&first), vec!["A 3", "A 1", "A 2"]);
    let second = labelled_document("B", 2);
    let out = merge_documents(vec![first, second]).unwrap();
    assert_eq!(page_texts(&out), vec!["A 3", "A 1", "A 2", "B 1", "B 2"]);
}

#[test]
fn split_counts_the_pages_of_a_reordered_document_by_identifier() {
    let reordered = reorder_document(labelled_document("A", 3), &vec![3, 1, 2]).unwrap();
    let out = split_document(reordered, 1, 2).unwrap();
    assert_eq!(page_texts(&out), vec!["A 1", "A 2"]);
}

#[test]
fn merge_returns_on_a_bookmark_that_is_its_own_child() {
    let first = labelled_document("A", 1);
    let mut second = labelled_document("B", 2);
    let mut bookmark = Bookmark::new(String::from("loop"), [0.0, 0.0, 0.0], 0, (0, 0));
    bookmark.id = 1;
    bookmark.children.push(1);
    second.bookmark_table.insert(1, bookmark);
    second.bookmarks.push(1);
    let out = merge_documents(vec![first, second]).unwrap();
    assert_eq!(page_texts(&out), vec!["A 1", "B 1", "B 2"]);
    assert!(out.bookmarks.is_empty());
}

#[test]
fn merge_counts_the_pages_of_all_documents() {
    let docs = vec![
        labelled_document("A", 3),
        labelled_document("B", 0),
        labelled_document("C", 2),
        labelled_document("D", 4),
    ];
    let out = merge_documents(docs).unwrap();
    assert_eq!(out.get_pages().len(), 9);
    assert_eq!(
        page_texts(&out),
        vec!["A 1", "A 2", "A 3", "C 1", "C 2", "D 1", "D 2", "D 3", "D 4"]
    );
    let catalog = out.catalog().unwrap();
    let pages_id = catalog.get(b"Pages").unwrap().as_reference().unwrap();
    let pages = out.get_dictionary(pages_id).unwrap();
    assert_eq!(pages.get(b"Count").unwrap().as_i64().unwrap(), 9);
}

#[test]
fn merge_gives_every_object_its_own_identifier() {
    let first = labelled_document("A", 2);
    let second = labelled_document("B", 2);
    let count = first.objects.len() + second.objects.len();
    let out = merge_documents(vec![first, second]).unwrap();
    // the two old catalogs and page tree nodes are gone, the new ones are there
    assert_eq!(out.objects.len(), count - 4 + 2);
    for id in out.objects.keys() {
        assert!(id.0 >= 1 && id.0 <= out.max_id);
    }
}

#[test]
fn merge_of_nothing_is_a_document_without_pages() {
    let out = merge_documents(Vec::new()).unwrap();
    assert_eq!(out.get_pages().len(), 0);
    assert_eq!(kids_of(&out).len(), 0);
    assert_eq!(out.objects.len(), 2);
    assert_eq!(out.max_id, 3);
}

#[test]
fn merge_writes_out_the_merged_document() {
    let output = merge_pdf(vec![labelled_document("A", 2), labelled_document("B", 1)]).unwrap();
    let doc = Document::load_mem(&output).unwrap();
    assert_eq!(page_texts(&doc), vec!["A 1", "A 2", "B 1"]);
    let expected = bytes_of(
        merge_documents(vec![labelled_document("A", 2), labelled_document("B", 1)]).unwrap(),
    );
    assert_eq!(output, expected);
}

#[test]
fn reorder_puts_the_pages_in_the_order_asked() {
    let out = reorder_document(dummy_document(3), &vec![3, 1, 2]).unwrap();
    assert_eq!(page_texts(&out), vec!["Page 3", "Page 1", "Page 2"]);
}

#[test]
fn reorder_repeats_a_page_that_is_named_twice() {
    let out = reorder_document(dummy_document(3), &vec![2, 1, 2]).unwrap();
    let kids = kids_of(&out);
    assert_eq!(kids.len(), 3);
    assert_eq!(kids[0], kids[2]);
    assert!(kids[0] != kids[1]);
    assert_eq!(page_texts(&out), vec!["Page 2", "Page 1", "Page 2"]);
}

#[test]
fn reorder_passes_over_numbers_outside_the_document() {
    let out = reorder_document(dummy_document(3), &vec![0, 2, 7, 1, 4]).unwrap();
    assert_eq!(page_texts(&out), vec!["Page 2", "Page 1"]);
}

#[test]
fn reorder_refuses_a_selection_without_a_page() {
    match reorder_document(dummy_document(3), &vec![0, 4, 9]) {
        Err(PdfError::Operation(text)) => assert_eq!(text, "No valid pages selected"),
        _ => panic!("a selection without a page was accepted"),
    }
    match reorder_pages(dummy_document(3), &Vec::new()) {
        Err(PdfError::Operation(text)) => assert_eq!(text, "No valid pages selected"),
        _ => panic!("an empty selection was accepted"),
    }
}

#[test]
fn reorder_returns_a_document_that_loads() {
    let output = reorder_pages(dummy_document(4), &vec![4, 3, 2, 1]).unwrap();
    let doc = Document::load_mem(&output).unwrap();
    assert_eq!(page_texts(&doc), vec!["Page 4", "Page 3", "Page 2", "Page 1"]);
}

#[test]
fn page_count_counts_the_pages() {
    assert_eq!(get_page_count(&dummy_document(0)), 0);
    assert_eq!(get_page_count(&dummy_document(7)), 7);
    let loaded = Document::load_mem(&bytes_of(dummy_document(5))).unwrap();
    assert_eq!(get_page_count(&loaded), 5);
}

#[test]
fn rebuild_draws_two_identifiers_and_names_the_catalog() {
    let mut doc = dummy_document(2);
    let before = doc.max_id;
    let targets: Vec<ObjectId> = doc.get_pages().into_values().collect();
    assert!(rebuild_page_tree(&mut doc, &targets));
    assert_eq!(doc.max_id, before + 2);
    let root = doc.trailer.get(b"Root").unwrap().as_reference().unwrap();
    assert_eq!(root, (before + 2, 0));
    let catalog = doc.get_dictionary(root).unwrap();
    assert_eq!(catalog.get(b"Type").unwrap().as_name().unwrap(), b"Catalog");
    assert_eq!(catalog.get(b"Pages").unwrap().as_reference().unwrap(), (before + 1, 0));
    let pages = doc.get_dictionary((before + 1, 0)).unwrap();
    assert_eq!(pages.get(b"Type").unwrap().as_name().unwrap(), b"Pages");
    assert_eq!(pages.get(b"Count").unwrap().as_i64().unwrap(), 2);
    assert_eq!(kids_of(&doc), targets);
}

#[test]
fn rebuild_passes_over_a_page_that_does_not_resolve() {
    let mut doc = dummy_document(3);
    let pages: Vec<ObjectId> = doc.get_pages().into_values().collect();
    let stream_id = doc
        .get_dictionary(pages[0])
        .unwrap()
        .get(b"Contents")
        .unwrap()
        .as_reference()
        .unwrap();
    let targets = vec![pages[2], (9000, 0), stream_id, pages[0]];
    assert!(rebuild_page_tree(&mut doc, &targets));
    assert_eq!(kids_of(&doc), vec![pages[2], pages[0]]);
    let root = doc.trailer.get(b"Root").unwrap().as_reference().unwrap();
    let catalog = doc.get_dictionary(root).unwrap();
    let pages_id = catalog.get(b"Pages").unwrap().as_reference().unwrap();
    let node = doc.get_dictionary(pages_id).unwrap();
    assert_eq!(node.get(b"Count").unwrap().as_i64().unwrap(), 2);
    let untouched = doc.get_dictionary(pages[1]).unwrap();
    assert!(untouched.get(b"Parent").unwrap().as_reference().unwrap() != pages_id);
}

#[test]
fn rebuild_leaves_a_document_with_a_full_counter_as_it_is() {
    let mut doc = dummy_document(2);
    doc.max_id = u32::MAX - 1;
    let before = doc.clone();
    let targets: Vec<ObjectId> = doc.get_pages().into_values().collect();
    assert!(!rebuild_page_tree(&mut doc, &targets));
    assert_eq!(doc.max_id, before.max_id);
    assert!(doc.objects == before.objects);
    assert!(doc.trailer == before.trailer);
    doc.max_id = u32::MAX - 2;
    assert!(rebuild_page_tree(&mut doc, &targets));
    assert_eq!(doc.max_id, u32::MAX);
}

#[test]
fn pruning_twice_is_pruning_once() {
    let mut out = split_document(dummy_document(5), 2, 3).unwrap();
    let once = out.objects.clone();
    let removed = out.prune_objects();
    assert!(removed.is_empty());
    assert!(out.objects == once);
}

#[test]
fn saving_and_loading_keeps_the_objects_and_the_root() {
    let out = split_document(dummy_document(4), 2, 3).unwrap();
    let kept = out.clone();
    let loaded = Document::load_mem(&bytes_of(out)).unwrap();
    assert_eq!(
        loaded.trailer.get(b"Root").unwrap().as_reference().unwrap(),
        kept.trailer.get(b"Root").unwrap().as_reference().unwrap()
    );
    for (id, object) in kept.objects.iter() {
        let again = loaded.objects.get(id).unwrap();
        match (object, again) {
            (Object::Stream(a), Object::Stream(b)) => {
                assert!(a.dict == b.dict);
                assert_eq!(a.content, b.content);
            }
            (a, b) => assert!(a == b),
        }
    }
    assert_eq!(page_texts(&loaded), vec!["Page 2", "Page 3"]);
}

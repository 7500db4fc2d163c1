use pdf_core::error::PdfError;
use pdf_core::names::{decimal_text, page_image_name, split_file_name};
use pdf_core::order::sort_ids;

#[test]
fn numbers_are_written_in_decimal() {
    assert_eq!(decimal_text(0), "0");
    assert_eq!(decimal_text(7), "7");
    assert_eq!(decimal_text(10), "10");
    assert_eq!(decimal_text(4096), "4096");
    assert_eq!(decimal_text(u64::MAX), "18446744073709551615");
}

#[test]
fn a_split_file_is_named_after_prefix_and_range() {
    assert_eq!(split_file_name("split", 1, 2), "split_1-2.pdf");
    assert_eq!(split_file_name("", 10, 250), "_10-250.pdf");
    assert_eq!(split_file_name("out put", u32::MAX, 0), "out put_4294967295-0.pdf");
}

#[test]
fn a_page_image_is_named_with_three_digits_at_least() {
    assert_eq!(page_image_name("report", 1), "report_page_001.png");
    assert_eq!(page_image_name("report", 42), "report_page_042.png");
    assert_eq!(page_image_name("report", 999), "report_page_999.png");
    assert_eq!(page_image_name("report", 1000), "report_page_1000.png");
    assert_eq!(page_image_name("output", 0), "output_page_000.png");
}

#[test]
fn identifiers_are_sorted_by_number_then_generation() {
    let ids = vec![(5, 0), (2, 1), (9, 0), (2, 0), (5, 0), (1, 65535)];
    assert_eq!(sort_ids(&ids), vec![(1, 65535), (2, 0), (2, 1), (5, 0), (5, 0), (9, 0)]);
    assert_eq!(sort_ids(&Vec::new()), Vec::new());
    assert_eq!(sort_ids(&vec![(3, 0), (2, 0), (1, 0)]), vec![(1, 0), (2, 0), (3, 0)]);
}

#[test]
fn an_error_is_described_in_one_line() {
    assert_eq!(PdfError::InvalidPage(7).message(), "Invalid Page Number: 7");
    assert_eq!(PdfError::InvalidPage(0).message(), "Invalid Page Number: 0");
    assert_eq!(
        PdfError::Operation(String::from("No valid pages selected")).message(),
        "Operation Error: No valid pages selected"
    );
    let missing = std::io::Error::new(std::io::ErrorKind::NotFound, "gone");
    assert_eq!(PdfError::Io(missing).message(), "IO Error: gone");
    let parse = PdfError::Parse(lopdf::Error::Header);
    assert_eq!(parse.message(), "PDF Parse Error: Invalid file header");
}

use image::{DynamicImage, ImageFormat, Rgb, RgbImage};
use lopdf::{Document, Object};
use pdf_core::error::PdfError;
use pdf_core::import::{embed_image, failure_text, images_document, images_to_pdf, PageImage};

fn picture(width: u32, height: u32) -> DynamicImage {
    let mut picture = RgbImage::new(width, height);
    for pixel in picture.pixels_mut() {
        *pixel = Rgb([200, 30, 30]);
    }
    DynamicImage::ImageRgb8(picture)
}

fn embedded(width: u32, height: u32) -> PageImage {
    embed_image("\"a.png\"", &picture(width, height)).unwrap()
}

fn media_boxes(doc: &Document) -> Vec<Vec<i64>> {
    let mut boxes = Vec::new();
    for (_, id) in doc.get_pages() {
        let page = doc.get_dictionary(id).unwrap();
        let corners = page.get(b"MediaBox").unwrap().as_array().unwrap();
        boxes.push(corners.iter().map(|corner| corner.as_i64().unwrap()).collect());
    }
    boxes
}

#[test]
fn images_of_two_sizes_make_two_pages_of_those_sizes() {
    let images = vec![embedded(7, 5), embedded(12, 20)];
    let output = images_to_pdf(images).unwrap();
    let doc = Document::load_mem(&output).unwrap();
    assert_eq!(doc.get_pages().len(), 2);
    assert_eq!(media_boxes(&doc), vec![vec![0, 0, 7, 5], vec![0, 0, 12, 20]]);
}

#[test]
fn an_embedded_image_is_a_jpeg_of_the_size_of_the_image() {
    let page = embedded(9, 4);
    assert_eq!((page.width, page.height), (9, 4));
    let output = images_to_pdf(vec![page]).unwrap();
    let doc = Document::load_mem(&output).unwrap();
    let page_id = *doc.get_pages().get(&1).unwrap();
    let page = doc.get_dictionary(page_id).unwrap();
    let resources = page.get(b"Resources").unwrap().as_dict().unwrap();
    let names = resources.get(b"XObject").unwrap().as_dict().unwrap();
    let image_id = names.get(b"Im1").unwrap().as_reference().unwrap();
    let stream = doc.get_object(image_id).unwrap().as_stream().unwrap();
    assert_eq!(stream.dict.get(b"Subtype").unwrap().as_name().unwrap(), b"Image");
    assert_eq!(stream.dict.get(b"Width").unwrap().as_i64().unwrap(), 9);
    assert_eq!(stream.dict.get(b"Height").unwrap().as_i64().unwrap(), 4);
    assert_eq!(stream.dict.get(b"Filter").unwrap().as_name().unwrap(), b"DCTDecode");
    let decoded = image::load_from_memory_with_format(&stream.content, ImageFormat::Jpeg).unwrap();
    assert_eq!((decoded.width(), decoded.height()), (9, 4));
    let mut again = Vec::new();
    image::codecs::jpeg::JpegEncoder::new(&mut again).encode_image(&picture(9, 4)).unwrap();
    assert_eq!(stream.content, again);
}

#[test]
fn an_image_document_has_three_objects_for_each_image() {
    let images = vec![
        PageImage { width: 3, height: 2, jpeg: vec![1, 2, 3] },
        PageImage { width: 640, height: 480, jpeg: vec![9; 10] },
    ];
    let doc = images_document(images).unwrap();
    assert_eq!(doc.objects.len(), 8);
    assert_eq!(doc.max_id, 8);
    assert_eq!(doc.trailer.get(b"Root").unwrap().as_reference().unwrap(), (8, 0));
    let pages = doc.get_dictionary((1, 0)).unwrap();
    assert_eq!(pages.get(b"Type").unwrap().as_name().unwrap(), b"Pages");
    assert_eq!(pages.get(b"Count").unwrap().as_i64().unwrap(), 2);
    let kids: Vec<Object> = pages.get(b"Kids").unwrap().as_array().unwrap().clone();
    assert!(kids == vec![Object::Reference((4, 0)), Object::Reference((7, 0))]);

    let image = doc.get_object((2, 0)).unwrap().as_stream().unwrap();
    assert_eq!(image.content, vec![1, 2, 3]);
    assert_eq!(image.dict.get(b"Type").unwrap().as_name().unwrap(), b"XObject");
    assert_eq!(image.dict.get(b"ColorSpace").unwrap().as_name().unwrap(), b"DeviceRGB");
    assert_eq!(image.dict.get(b"BitsPerComponent").unwrap().as_i64().unwrap(), 8);
    assert_eq!(image.dict.get(b"Length").unwrap().as_i64().unwrap(), 3);

    let content = doc.get_object((3, 0)).unwrap().as_stream().unwrap();
    assert_eq!(content.content, b"q 3 0 0 2 0 0 cm /Im1 Do Q".to_vec());
    let second = doc.get_object((6, 0)).unwrap().as_stream().unwrap();
    assert_eq!(second.content, b"q 640 0 0 480 0 0 cm /Im1 Do Q".to_vec());

    let page = doc.get_dictionary((7, 0)).unwrap();
    assert_eq!(page.get(b"Type").unwrap().as_name().unwrap(), b"Page");
    assert_eq!(page.get(b"Parent").unwrap().as_reference().unwrap(), (1, 0));
    assert_eq!(page.get(b"Contents").unwrap().as_reference().unwrap(), (6, 0));
    let resources = page.get(b"Resources").unwrap().as_dict().unwrap();
    let names = resources.get(b"XObject").unwrap().as_dict().unwrap();
    assert_eq!(names.get(b"Im1").unwrap().as_reference().unwrap(), (5, 0));
    assert_eq!(media_boxes(&doc), vec![vec![0, 0, 3, 2], vec![0, 0, 640, 480]]);
}

#[test]
fn no_image_makes_a_document_without_pages() {
    let doc = images_document(Vec::new()).unwrap();
    assert_eq!(doc.get_pages().len(), 0);
    assert_eq!(doc.objects.len(), 2);
    assert_eq!(doc.max_id, 2);
}

#[test]
fn an_image_that_does_not_encode_is_refused() {
    match embed_image("\"too wide.png\"", &picture(70_000, 1)) {
        Err(PdfError::Operation(text)) => {
            assert!(text.starts_with("Failed to encode image \"too wide.png\": "));
            assert!(text.len() > "Failed to encode image \"too wide.png\": ".len());
        }
        _ => panic!("an image that does not encode was accepted"),
    }
}

#[test]
fn the_bytes_of_an_image_document_are_those_of_the_document_saved() {
    let images = vec![
        PageImage { width: 3, height: 2, jpeg: vec![1, 2, 3] },
        PageImage { width: 5, height: 8, jpeg: vec![4, 5] },
    ];
    let mut doc = images_document(images.iter().map(|image| PageImage {
        width: image.width,
        height: image.height,
        jpeg: image.jpeg.clone(),
    }).collect()).unwrap();
    let mut expected = Vec::new();
    doc.save_to(&mut expected).unwrap();
    assert_eq!(images_to_pdf(images).unwrap(), expected);
}

#[test]
fn a_failure_is_described_with_the_path_as_it_is_shown() {
    assert_eq!(
        failure_text("Failed to open image ", "\"a.png\"", "no such file"),
        "Failed to open image \"a.png\": no such file"
    );
    assert_eq!(failure_text("Failed to encode image ", "x.png", ""), "Failed to encode image x.png: ");
}

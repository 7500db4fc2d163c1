use vstd::prelude::*;
use vstd::string::{StrSliceExecFns, StringExecFns};
use crate::engine::{exhausted, exhausted_text};
use crate::error::PdfError;
use crate::imaging::{encode_jpeg, image_content, image_height, image_width, jpeg_of};
use crate::model::{
    dictionary_at, dictionary_of, empty_graph, ids_bounded, lemma_dictionary_of_push,
    lemma_lookup_put_other, lemma_lookup_put_same, lemma_name_injective, lookup, name, no_entries,
    put, Graph, Node, ObjectId,
};
use crate::names::{decimal, decimal_text};
use crate::store::{
    add_object, array_object, dictionary_object, dictionary_set, graph, integer_object,
    name_object, new_dictionary, new_document, new_object_id, nodes, object_node,
    reference_object, save_document, saved, set_object, set_trailer_entry, stream_object,
};
use crate::tree::{
    catalog_node, lemma_catalog_node_built, lemma_flat_tree, lemma_pages_node_built, page_list,
    pages_node, references,
};
use image::DynamicImage;
use lopdf::{Document, Object};

verus! {

/// An image ready to be embedded: its size in pixels and its JPEG encoding.
#[derive(Debug)]
pub struct PageImage {
    pub width: u32,
    pub height: u32,
    pub jpeg: Vec<u8>,
}

/// The mathematical value of a `PageImage`.
pub struct Picture {
    pub width: u32,
    pub height: u32,
    pub jpeg: Seq<u8>,
}

impl View for PageImage {
    type V = Picture;

    open spec fn view(&self) -> Picture {
        Picture { width: self.width, height: self.height, jpeg: self.jpeg@ }
    }
}

/// The values of a list of images.
pub open spec fn pictures(images: Seq<PageImage>) -> Seq<Picture> {
    images.map_values(|image: PageImage| image@)
}

/// The most images that one document takes: each needs three identifiers,
/// the page tree and the catalog one each, and two are left for saving.
pub open spec fn image_limit() -> nat {
    1_431_655_763
}

/// The image resource: a stream of the JPEG bytes that tells the size, the
/// color space and the depth of the image.
pub open spec fn image_node(picture: Picture) -> Node {
    Node::Stream(
        dictionary_of(
            seq![
                ("Type"@, Node::Name(name("XObject"@))),
                ("Subtype"@, Node::Name(name("Image"@))),
                ("Width"@, Node::Integer(picture.width as i64)),
                ("Height"@, Node::Integer(picture.height as i64)),
                ("ColorSpace"@, Node::Name(name("DeviceRGB"@))),
                ("BitsPerComponent"@, Node::Integer(8)),
                ("Filter"@, Node::Name(name("DCTDecode"@))),
                ("Length"@, Node::Integer(picture.jpeg.len() as i64)),
            ],
        ),
        picture.jpeg,
    )
}

/// The one instruction of a page: paint the image `Im1`, scaled to the size
/// of the page.
pub open spec fn paint_text(width: u32, height: u32) -> Seq<char> {
    "q "@ + decimal(width as nat) + " 0 0 "@ + decimal(height as nat) + " 0 0 cm /Im1 Do Q"@
}

/// The content stream of a page.
pub open spec fn content_node(width: u32, height: u32) -> Node {
    Node::Stream(
        dictionary_of(
            seq![("Length"@, Node::Integer(name(paint_text(width, height)).len() as i64))],
        ),
        name(paint_text(width, height)),
    )
}

/// The page: as large as the image, one unit to the pixel, with the image
/// as its resource `Im1`.
pub open spec fn page_node(
    width: u32,
    height: u32,
    parent: ObjectId,
    contents: ObjectId,
    image: ObjectId,
) -> Node {
    Node::Dictionary(
        dictionary_of(
            seq![
                ("Type"@, Node::Name(name("Page"@))),
                ("Parent"@, Node::Reference(parent)),
                ("MediaBox"@, media_box(width, height)),
                ("Contents"@, Node::Reference(contents)),
                (
                    "Resources"@,
                    Node::Dictionary(
                        dictionary_of(
                            seq![
                                (
                                    "XObject"@,
                                    Node::Dictionary(
                                        dictionary_of(seq![("Im1"@, Node::Reference(image))]),
                                    ),
                                ),
                            ],
                        ),
                    ),
                ),
            ],
        ),
    )
}

/// The identifier of the page tree node of an image document.
pub open spec fn image_tree_id() -> ObjectId {
    (1u32, 0u16)
}

/// The document with the objects of the images, before its page tree node
/// and its catalog are stored: each image takes the next three identifiers,
/// for its resource, its content stream and its page.
pub open spec fn with_pictures(list: Seq<Picture>) -> Graph
    decreases list.len(),
{
    if list.len() == 0 {
        Graph { max_id: 1, ..empty_graph("1.5"@) }
    } else {
        let before = with_pictures(list.drop_last());
        let picture = list.last();
        let image_id = ((before.max_id + 1) as u32, 0u16);
        let content_id = ((before.max_id + 2) as u32, 0u16);
        let page_id = ((before.max_id + 3) as u32, 0u16);
        Graph {
            objects: before.objects.insert(image_id, image_node(picture)).insert(
                content_id,
                content_node(picture.width, picture.height),
            ).insert(
                page_id,
                page_node(picture.width, picture.height, image_tree_id(), content_id, image_id),
            ),
            max_id: (before.max_id + 3) as u32,
            ..empty_graph("1.5"@)
        }
    }
}

/// The identifiers of the pages of an image document with `count` pages.
pub open spec fn image_pages(count: nat) -> Seq<ObjectId> {
    Seq::new(count, |i: int| ((3 * i + 4) as u32, 0u16))
}

/// The document of the images: one page for each, in the order given, under
/// a flat page tree.
pub open spec fn images_graph(list: Seq<Picture>) -> Graph {
    let body = with_pictures(list);
    let catalog_id = ((body.max_id + 1) as u32, 0u16);
    Graph {
        objects: body.objects.insert(image_tree_id(), pages_node(image_pages(list.len()))).insert(
            catalog_id,
            catalog_node(image_tree_id()),
        ),
        trailer: put(no_entries(), name("Root"@), Node::Reference(catalog_id)),
        max_id: (body.max_id + 1) as u32,
        ..body
    }
}

fn image_object(width: u32, height: u32, jpeg: Vec<u8>) -> (o: Object)
    ensures
        object_node(o) == image_node(Picture { width, height, jpeg: jpeg@ }),
{
    let ghost length = Node::Integer(jpeg@.len() as i64);
    let ghost d0 = Seq::<(Seq<char>, Node)>::empty();
    let ghost d1 = d0.push(("Type"@, Node::Name(name("XObject"@))));
    let ghost d2 = d1.push(("Subtype"@, Node::Name(name("Image"@))));
    let ghost d3 = d2.push(("Width"@, Node::Integer(width as i64)));
    let ghost d4 = d3.push(("Height"@, Node::Integer(height as i64)));
    let ghost d5 = d4.push(("ColorSpace"@, Node::Name(name("DeviceRGB"@))));
    let ghost d6 = d5.push(("BitsPerComponent"@, Node::Integer(8)));
    let ghost d7 = d6.push(("Filter"@, Node::Name(name("DCTDecode"@))));
    let ghost d8 = d7.push(("Length"@, length));
    proof {
        lemma_dictionary_of_push(d0, "Type"@, Node::Name(name("XObject"@)));
        lemma_dictionary_of_push(d1, "Subtype"@, Node::Name(name("Image"@)));
        lemma_dictionary_of_push(d2, "Width"@, Node::Integer(width as i64));
        lemma_dictionary_of_push(d3, "Height"@, Node::Integer(height as i64));
        lemma_dictionary_of_push(d4, "ColorSpace"@, Node::Name(name("DeviceRGB"@)));
        lemma_dictionary_of_push(d5, "BitsPerComponent"@, Node::Integer(8));
        lemma_dictionary_of_push(d6, "Filter"@, Node::Name(name("DCTDecode"@)));
        lemma_dictionary_of_push(d7, "Length"@, length);
        assert(d8 =~= seq![
            ("Type"@, Node::Name(name("XObject"@))),
            ("Subtype"@, Node::Name(name("Image"@))),
            ("Width"@, Node::Integer(width as i64)),
            ("Height"@, Node::Integer(height as i64)),
            ("ColorSpace"@, Node::Name(name("DeviceRGB"@))),
            ("BitsPerComponent"@, Node::Integer(8)),
            ("Filter"@, Node::Name(name("DCTDecode"@))),
            ("Length"@, length),
        ]);
    }
    let mut dict = new_dictionary();
    dictionary_set(&mut dict, "Type", name_object("XObject"));
    dictionary_set(&mut dict, "Subtype", name_object("Image"));
    dictionary_set(&mut dict, "Width", integer_object(width as i64));
    dictionary_set(&mut dict, "Height", integer_object(height as i64));
    dictionary_set(&mut dict, "ColorSpace", name_object("DeviceRGB"));
    dictionary_set(&mut dict, "BitsPerComponent", integer_object(8));
    dictionary_set(&mut dict, "Filter", name_object("DCTDecode"));
    stream_object(dict, jpeg)
}

fn content_object(width: u32, height: u32) -> (o: Object)
    ensures
        object_node(o) == content_node(width, height),
{
    let mut text = String::from_str("q ");
    text.append(decimal_text(width as u64).as_str());
    text.append(" 0 0 ");
    text.append(decimal_text(height as u64).as_str());
    text.append(" 0 0 cm /Im1 Do Q");
    let bytes = text.as_str().as_bytes_vec();
    proof {
        let length = Node::Integer(bytes@.len() as i64);
        lemma_dictionary_of_push(Seq::empty(), "Length"@, length);
        assert(Seq::<(Seq<char>, Node)>::empty().push(("Length"@, length)) =~= seq![
            ("Length"@, length),
        ]);
    }
    stream_object(new_dictionary(), bytes)
}

fn page_object(width: u32, height: u32, parent: ObjectId, contents: ObjectId, image: ObjectId) -> (o:
    Object)
    ensures
        object_node(o) == page_node(width, height, parent, contents, image),
{
    let ghost empty = Seq::<(Seq<char>, Node)>::empty();
    let mut names = new_dictionary();
    dictionary_set(&mut names, "Im1", reference_object(image));
    let ghost names_node = Node::Dictionary(dictionary_of(seq![("Im1"@, Node::Reference(image))]));
    proof {
        lemma_dictionary_of_push(empty, "Im1"@, Node::Reference(image));
        assert(empty.push(("Im1"@, Node::Reference(image))) =~= seq![
            ("Im1"@, Node::Reference(image)),
        ]);
    }
    let mut resources = new_dictionary();
    dictionary_set(&mut resources, "XObject", dictionary_object(names));
    let ghost resources_node = Node::Dictionary(dictionary_of(seq![("XObject"@, names_node)]));
    proof {
        lemma_dictionary_of_push(empty, "XObject"@, names_node);
        assert(empty.push(("XObject"@, names_node)) =~= seq![("XObject"@, names_node)]);
    }
    let mut corners: Vec<Object> = Vec::new();
    corners.push(integer_object(0));
    corners.push(integer_object(0));
    corners.push(integer_object(width as i64));
    corners.push(integer_object(height as i64));
    let ghost media_box = Node::Array(
        seq![
            Node::Integer(0),
            Node::Integer(0),
            Node::Integer(width as i64),
            Node::Integer(height as i64),
        ],
    );
    proof {
        assert(nodes(corners@) =~= media_box->Array_0);
    }
    let ghost d1 = empty.push(("Type"@, Node::Name(name("Page"@))));
    let ghost d2 = d1.push(("Parent"@, Node::Reference(parent)));
    let ghost d3 = d2.push(("MediaBox"@, media_box));
    let ghost d4 = d3.push(("Contents"@, Node::Reference(contents)));
    let ghost d5 = d4.push(("Resources"@, resources_node));
    proof {
        lemma_dictionary_of_push(empty, "Type"@, Node::Name(name("Page"@)));
        lemma_dictionary_of_push(d1, "Parent"@, Node::Reference(parent));
        lemma_dictionary_of_push(d2, "MediaBox"@, media_box);
        lemma_dictionary_of_push(d3, "Contents"@, Node::Reference(contents));
        lemma_dictionary_of_push(d4, "Resources"@, resources_node);
        assert(d5 =~= seq![
            ("Type"@, Node::Name(name("Page"@))),
            ("Parent"@, Node::Reference(parent)),
            ("MediaBox"@, media_box),
            ("Contents"@, Node::Reference(contents)),
            ("Resources"@, resources_node),
        ]);
    }
    let mut page = new_dictionary();
    dictionary_set(&mut page, "Type", name_object("Page"));
    dictionary_set(&mut page, "Parent", reference_object(parent));
    dictionary_set(&mut page, "MediaBox", array_object(corners));
    dictionary_set(&mut page, "Contents", reference_object(contents));
    dictionary_set(&mut page, "Resources", dictionary_object(resources));
    dictionary_object(page)
}

/// Builds the document of the images: one page for each image, in the order
/// given, each page as large as its image and filled by it. More images than
/// the identifiers suffice for are refused.
pub fn images_document(images: Vec<PageImage>) -> (r: Result<Document, PdfError>)
    ensures
        match r {
            Ok(doc) => images@.len() <= image_limit() && graph(doc) == images_graph(
                pictures(images@),
            ) && graph(doc).max_id <= u32::MAX - 2 && ids_bounded(graph(doc)),
            Err(PdfError::Operation(text)) => images@.len() > image_limit() && text@
                == exhausted_text(),
            Err(_) => false,
        },
{
    if images.len() > 1_431_655_763 {
        return Err(exhausted());
    }
    let ghost list = pictures(images@);
    let mut doc = new_document("1.5");
    let pages_id = new_object_id(&mut doc);
    let mut kids: Vec<Object> = Vec::new();
    proof {
        assert(graph(doc).objects =~= with_pictures(list.take(0)).objects);
        assert(nodes(kids@) =~= references(image_pages(0)));
    }
    for image in it: images
        invariant
            it.seq() == images@,
            list == pictures(images@),
            images@.len() <= image_limit(),
            pages_id == image_tree_id(),
            graph(doc) == with_pictures(list.take(it.index() as int)),
            graph(doc).max_id == 1 + 3 * it.index(),
            ids_bounded(graph(doc)),
            nodes(kids@) == references(image_pages(it.index() as nat)),
    {
        let ghost done = it.index() as int;
        proof {
            assert(list.take(done + 1).drop_last() =~= list.take(done));
            assert(list.take(done + 1).last() == image@);
        }
        let PageImage { width, height, jpeg } = image;
        let image_id = add_object(&mut doc, image_object(width, height, jpeg));
        let content_id = add_object(&mut doc, content_object(width, height));
        let page_id = add_object(
            &mut doc,
            page_object(width, height, pages_id, content_id, image_id),
        );
        let kid = reference_object(page_id);
        let ghost listed = kids@;
        kids.push(kid);
        proof {
            assert(nodes(listed.push(kid)) =~= nodes(listed).push(object_node(kid)));
            assert(references(image_pages((done + 1) as nat)) =~= references(
                image_pages(done as nat),
            ).push(Node::Reference(page_id)));
        }
    }
    proof {
        assert(list.take(images@.len() as int) =~= list);
        assert(nodes(kids@).len() == kids@.len());
        lemma_pages_node_built(image_pages(list.len()));
        lemma_catalog_node_built(pages_id);
    }
    let count = #[verifier::truncate]
    (kids.len() as i64);
    let mut pages = new_dictionary();
    dictionary_set(&mut pages, "Type", name_object("Pages"));
    dictionary_set(&mut pages, "Count", integer_object(count));
    dictionary_set(&mut pages, "Kids", array_object(kids));
    set_object(&mut doc, pages_id, dictionary_object(pages));
    let mut catalog = new_dictionary();
    dictionary_set(&mut catalog, "Type", name_object("Catalog"));
    dictionary_set(&mut catalog, "Pages", reference_object(pages_id));
    let catalog_id = add_object(&mut doc, dictionary_object(catalog));
    set_trailer_entry(&mut doc, "Root", reference_object(catalog_id));
    proof {
        let body = with_pictures(list);
        assert forall|id: ObjectId| #[trigger] graph(doc).objects.contains_key(id) implies id.0
            <= graph(doc).max_id by {
            if id != pages_id && id != catalog_id {
                assert(body.objects.contains_key(id));
            }
        }
    }
    Ok(doc)
}

/// The description of a failure on the image at `path`: what failed, the
/// path as it is shown, a colon and the words of the error.
pub open spec fn failure(what: Seq<char>, path: Seq<char>, detail: Seq<char>) -> Seq<char> {
    what + path + ": "@ + detail
}

/// Describes a failure on the image at `path`.
pub fn failure_text(what: &str, path: &str, detail: &str) -> (text: String)
    ensures
        text@ == failure(what@, path@, detail@),
{
    let mut text = String::from_str(what);
    text.append(path);
    text.append(": ");
    text.append(detail);
    text
}

/// What the description of an image that does not encode begins with.
pub open spec fn not_encoded_head() -> Seq<char> {
    "Failed to encode image "@
}

/// The picture that an image becomes: its size and its encoding as JPEG;
/// `None` where it does not encode.
pub open spec fn embedding(image: DynamicImage) -> Option<Picture> {
    let content = image_content(image);
    match jpeg_of(content) {
        Some(jpeg) => Some(Picture { width: content.width, height: content.height, jpeg }),
        None => None,
    }
}

/// Makes an opened image ready to be embedded: it is encoded as JPEG and
/// keeps its size. An image that does not encode is refused with a
/// description of the failure: what failed, the path of the image as it is
/// to be shown, and the words of the encoder.
pub fn embed_image(path: &str, image: &DynamicImage) -> (r: Result<PageImage, PdfError>)
    ensures
        match embedding(*image) {
            Some(picture) => r matches Ok(page) && page@ == picture,
            None => r matches Err(PdfError::Operation(text)) && exists|detail: Seq<char>|
                text@ == #[trigger] failure(not_encoded_head(), path@, detail),
        },
{
    match encode_jpeg(image) {
        Ok(jpeg) => Ok(PageImage { width: image_width(image), height: image_height(image), jpeg }),
        Err(e) => {
            let detail = e.to_string();
            let text = failure_text("Failed to encode image ", path, detail.as_str());
            proof {
                assert(text@ == failure(not_encoded_head(), path@, detail@));
            }
            Err(PdfError::Operation(text))
        },
    }
}

/// Makes one document of the images, a page for each in the order given,
/// and returns its bytes.
pub fn images_to_pdf(images: Vec<PageImage>) -> (r: Result<Vec<u8>, PdfError>)
    ensures
        if images@.len() > image_limit() {
            r matches Err(PdfError::Operation(text)) && text@ == exhausted_text()
        } else {
            match saved(images_graph(pictures(images@))) {
                Some(data) => r matches Ok(out) && out@ == data,
                None => r matches Err(PdfError::Io(_)),
            }
        },
{
    let doc = match images_document(images) {
        Ok(doc) => doc,
        Err(e) => {
            return Err(e);
        },
    };
    match save_document(doc) {
        Ok(data) => Ok(data),
        Err(e) => Err(PdfError::Io(e)),
    }
}

/// The identifier of the image resource of page `i` of an image document.
pub open spec fn image_id_of(i: int) -> ObjectId {
    ((3 * i + 2) as u32, 0u16)
}

/// The identifier of the content stream of page `i` of an image document.
pub open spec fn content_id_of(i: int) -> ObjectId {
    ((3 * i + 3) as u32, 0u16)
}

/// The identifier of page `i` of an image document.
pub open spec fn page_id_of(i: int) -> ObjectId {
    ((3 * i + 4) as u32, 0u16)
}

/// The page box of an image of the given size.
pub open spec fn media_box(width: u32, height: u32) -> Node {
    Node::Array(
        seq![
            Node::Integer(0),
            Node::Integer(0),
            Node::Integer(width as i64),
            Node::Integer(height as i64),
        ],
    )
}

/// The objects of the images stand where the counter put them: image `i`
/// has its resource, its content stream and its page under three numbers in
/// a row, and no object has the number of the page tree node.
pub proof fn lemma_with_pictures(list: Seq<Picture>)
    requires
        list.len() <= image_limit(),
    ensures
        with_pictures(list).max_id == 1 + 3 * list.len(),
        forall|id: ObjectId| #[trigger]
            with_pictures(list).objects.contains_key(id) ==> 2 <= id.0 <= 1 + 3 * list.len(),
        forall|i: int|
            0 <= i < list.len() ==> {
                let objects = with_pictures(list).objects;
                &&& objects.contains_key(#[trigger] page_id_of(i))
                &&& objects[page_id_of(i)] == page_node(
                    list[i].width,
                    list[i].height,
                    image_tree_id(),
                    content_id_of(i),
                    image_id_of(i),
                )
                &&& objects.contains_key(content_id_of(i))
                &&& objects[content_id_of(i)] == content_node(list[i].width, list[i].height)
                &&& objects.contains_key(image_id_of(i))
                &&& objects[image_id_of(i)] == image_node(list[i])
            },
    decreases list.len(),
{
    if list.len() > 0 {
        let front = list.drop_last();
        let last = list.len() - 1;
        lemma_with_pictures(front);
        let before = with_pictures(front);
        let after = with_pictures(list);
        assert(after.objects.contains_key(page_id_of(last)));
        assert forall|i: int| 0 <= i < list.len() implies {
            let objects = after.objects;
            &&& objects.contains_key(#[trigger] page_id_of(i))
            &&& objects[page_id_of(i)] == page_node(
                list[i].width,
                list[i].height,
                image_tree_id(),
                content_id_of(i),
                image_id_of(i),
            )
            &&& objects.contains_key(content_id_of(i))
            &&& objects[content_id_of(i)] == content_node(list[i].width, list[i].height)
            &&& objects.contains_key(image_id_of(i))
            &&& objects[image_id_of(i)] == image_node(list[i])
        } by {
            if i < last {
                assert(front[i] == list[i]);
                assert(before.objects.contains_key(page_id_of(i)));
                assert(before.objects.contains_key(content_id_of(i)));
                assert(before.objects.contains_key(image_id_of(i)));
            }
        }
    }
}

/// The document of a list of images has one page for each image, in the
/// order of the list, and the page of an image has the size of the image.
pub proof fn lemma_images_pages(list: Seq<Picture>)
    requires
        list.len() <= image_limit(),
    ensures
        page_list(images_graph(list)) == Some(image_pages(list.len())),
        forall|i: int|
            0 <= i < list.len() ==> {
                let page = dictionary_at(images_graph(list), #[trigger] image_pages(list.len())[i]);
                page is Some && lookup(page.unwrap(), name("MediaBox"@)) == Some(
                    media_box(list[i].width, list[i].height),
                )
            },
{
    let g = images_graph(list);
    let body = with_pictures(list);
    let catalog_id = ((body.max_id + 1) as u32, 0u16);
    lemma_with_pictures(list);
    lemma_lookup_put_same(no_entries(), name("Root"@), Node::Reference(catalog_id));
    lemma_flat_tree(g, catalog_id, image_tree_id(), image_pages(list.len()));
    assert forall|i: int| 0 <= i < list.len() implies {
        let page = dictionary_at(g, #[trigger] image_pages(list.len())[i]);
        page is Some && lookup(page.unwrap(), name("MediaBox"@)) == Some(
            media_box(list[i].width, list[i].height),
        )
    } by {
        assert(image_pages(list.len())[i] == page_id_of(i));
        assert(body.objects.contains_key(page_id_of(i)));
        assert(g.objects[page_id_of(i)] == body.objects[page_id_of(i)]);
        lemma_page_box(
            list[i].width,
            list[i].height,
            image_tree_id(),
            content_id_of(i),
            image_id_of(i),
        );
    }
}

/// The page of an image has the box of the size of the image.
pub proof fn lemma_page_box(
    width: u32,
    height: u32,
    parent: ObjectId,
    contents: ObjectId,
    image: ObjectId,
)
    ensures
        page_node(width, height, parent, contents, image) is Dictionary,
        lookup(
            page_node(width, height, parent, contents, image)->Dictionary_0,
            name("MediaBox"@),
        ) == Some(media_box(width, height)),
{
    let names_node = Node::Dictionary(dictionary_of(seq![("Im1"@, Node::Reference(image))]));
    let resources_node = Node::Dictionary(dictionary_of(seq![("XObject"@, names_node)]));
    let empty = Seq::<(Seq<char>, Node)>::empty();
    let d1 = empty.push(("Type"@, Node::Name(name("Page"@))));
    let d2 = d1.push(("Parent"@, Node::Reference(parent)));
    let d3 = d2.push(("MediaBox"@, media_box(width, height)));
    let d4 = d3.push(("Contents"@, Node::Reference(contents)));
    let d5 = d4.push(("Resources"@, resources_node));
    lemma_dictionary_of_push(d2, "MediaBox"@, media_box(width, height));
    lemma_dictionary_of_push(d3, "Contents"@, Node::Reference(contents));
    lemma_dictionary_of_push(d4, "Resources"@, resources_node);
    assert(d5 =~= seq![
        ("Type"@, Node::Name(name("Page"@))),
        ("Parent"@, Node::Reference(parent)),
        ("MediaBox"@, media_box(width, height)),
        ("Contents"@, Node::Reference(contents)),
        ("Resources"@, resources_node),
    ]);
    reveal_strlit("MediaBox");
    reveal_strlit("Contents");
    reveal_strlit("Resources");
    if name("MediaBox"@) == name("Contents"@) {
        lemma_name_injective("MediaBox"@, "Contents"@);
        assert("MediaBox"@[0] == 'M');
        assert("Contents"@[0] == 'C');
    }
    if name("MediaBox"@) == name("Resources"@) {
        lemma_name_injective("MediaBox"@, "Resources"@);
    }
    lemma_lookup_put_same(dictionary_of(d2), name("MediaBox"@), media_box(width, height));
    lemma_lookup_put_other(
        dictionary_of(d3),
        name("Contents"@),
        Node::Reference(contents),
        name("MediaBox"@),
    );
    lemma_lookup_put_other(
        dictionary_of(d4),
        name("Resources"@),
        resources_node,
        name("MediaBox"@),
    );
}

} // verus!

use vstd::prelude::*;
use crate::model::{
    dictionary_at, empty_graph, name, no_entries, put, Graph, Node, ObjectId,
};
use crate::reach::pruned;
use lopdf::{Dictionary, Document, Object};

verus! {

/// `lopdf::Document`, carried as an opaque value. What the library knows of
/// one is what `doc_objects`, `doc_trailer` and `doc_max_id` say.
#[verifier::external_type_specification]
#[verifier::external_body]
pub struct ExDocument(lopdf::Document);

/// `lopdf::Object`, carried as an opaque value described by `object_node`.
#[verifier::external_type_specification]
#[verifier::external_body]
pub struct ExObject(lopdf::Object);

/// `lopdf::Dictionary`, carried as an opaque value described by
/// `dict_entries`.
#[verifier::external_type_specification]
#[verifier::external_body]
pub struct ExDictionary(lopdf::Dictionary);

/// `lopdf::Error`, carried as an opaque value.
#[verifier::external_type_specification]
#[verifier::external_body]
pub struct ExError(lopdf::Error);

/// `std::io::Error`, carried as an opaque value.
#[verifier::external_type_specification]
#[verifier::external_body]
pub struct ExIoError(std::io::Error);

/// The object table of a document (its field `objects`).
pub uninterp spec fn doc_objects(d: Document) -> Map<ObjectId, Node>;

/// The trailer dictionary of a document (its field `trailer`), entry by entry.
pub uninterp spec fn doc_trailer(d: Document) -> Seq<(Seq<u8>, Node)>;

/// The identifier counter of a document (its field `max_id`).
pub uninterp spec fn doc_max_id(d: Document) -> u32;

/// The version that a document states (its field `version`).
pub uninterp spec fn doc_version(d: Document) -> Seq<char>;

/// Whether the cross-references of a document are written as a table, and
/// not as a stream (the kind in its field `reference_table`).
pub uninterp spec fn doc_table(d: Document) -> bool;

/// The bookmark list of a document (its field `bookmarks`). Neither the
/// objects nor the bytes that are saved depend on it.
pub uninterp spec fn doc_bookmarks(d: Document) -> Seq<u32>;

/// The bytes that `Document::save_to` writes for a document; `None` where it
/// reports an error.
pub uninterp spec fn saved(g: Graph) -> Option<Seq<u8>>;

/// The value of an object.
pub uninterp spec fn object_node(o: Object) -> Node;

/// The entries of a dictionary, in the order in which it yields them.
pub uninterp spec fn dict_entries(d: Dictionary) -> Seq<(Seq<u8>, Node)>;

/// The document that `Document::renumber_objects_with` leaves when it is
/// called on `g` with the first new number `start`.
pub uninterp spec fn renumbered(g: Graph, start: u32) -> Graph;

/// The page identifiers of `g` in the order of `Document::get_pages`: the
/// leaves of the page tree under the catalog that the trailer names.
pub uninterp spec fn page_walk(g: Graph) -> Seq<ObjectId>;

/// The mathematical value of a document.
pub open spec fn graph(d: Document) -> Graph {
    Graph {
        objects: doc_objects(d),
        trailer: doc_trailer(d),
        max_id: doc_max_id(d),
        version: doc_version(d),
        table: doc_table(d),
    }
}

/// The values of a list of objects.
pub open spec fn nodes(items: Seq<Object>) -> Seq<Node> {
    items.map_values(|o: Object| object_node(o))
}

/// `items` lists the table `table`: each item is an entry of the table, and
/// each key of the table is the key of an item.
pub open spec fn lists(items: Seq<(ObjectId, Object)>, table: Map<ObjectId, Node>) -> bool {
    &&& forall|i: int|
        0 <= i < items.len() ==> table.contains_key((#[trigger] items[i]).0) && table[items[i].0]
            == object_node(items[i].1)
    &&& forall|id: ObjectId| #[trigger]
        table.contains_key(id) ==> exists|i: int| 0 <= i < items.len() && (#[trigger] items[i]).0
            == id
}

/// `Document::save_to`, with a byte vector as the target: the bytes of the
/// file. They depend on the objects, the trailer, the counter, the version
/// and the kind of the cross-references, and on nothing else. The call
/// overflows on a counter that leaves no room for the number of the
/// cross-reference stream.
#[verifier::external_body]
pub(crate) fn save_document(doc: Document) -> (r: Result<Vec<u8>, std::io::Error>)
    requires
        doc_max_id(doc) <= u32::MAX - 2,
    ensures
        match r {
            Ok(data) => saved(graph(doc)) == Some(data@),
            Err(_) => saved(graph(doc)) is None,
        },
{
    let mut doc = doc;
    let mut out = Vec::new();
    doc.save_to(&mut out)?;
    Ok(out)
}

/// `Document::with_version`: a document of the given version without
/// objects, with an empty trailer and the counter at zero, whose
/// cross-references are written as a stream.
#[verifier::external_body]
pub(crate) fn new_document(version: &str) -> (doc: Document)
    ensures
        graph(doc) == empty_graph(version@),
        doc_version(doc) == version@,
        !doc_table(doc),
{
    Document::with_version(version)
}

/// The field `max_id`.
#[verifier::external_body]
pub(crate) fn max_id(doc: &Document) -> (r: u32)
    ensures
        r == doc_max_id(*doc),
{
    doc.max_id
}

/// Assignment to the field `max_id`; nothing else changes.
#[verifier::external_body]
pub(crate) fn set_max_id(doc: &mut Document, value: u32)
    ensures
        graph(*final(doc)) == (Graph { max_id: value, ..graph(*old(doc)) }),
{
    doc.max_id = value;
}

/// `BTreeMap::len` on the field `objects`: the number of entries of the table.
#[verifier::external_body]
pub(crate) fn object_count(doc: &Document) -> (r: usize)
    ensures
        r == doc_objects(*doc).len(),
{
    doc.objects.len()
}

/// `Document::new_object_id`: advances the counter by one and returns the
/// new number with generation zero. It overflows on a full counter.
#[verifier::external_body]
pub(crate) fn new_object_id(doc: &mut Document) -> (id: ObjectId)
    requires
        doc_max_id(*old(doc)) < u32::MAX,
    ensures
        id == ((doc_max_id(*old(doc)) + 1) as u32, 0u16),
        graph(*final(doc)) == (Graph { max_id: id.0, ..graph(*old(doc)) }),
{
    doc.new_object_id()
}

/// `Document::add_object`: advances the counter by one and stores the object
/// under the new number with generation zero. It overflows on a full counter.
#[verifier::external_body]
pub(crate) fn add_object(doc: &mut Document, object: Object) -> (id: ObjectId)
    requires
        doc_max_id(*old(doc)) < u32::MAX,
    ensures
        id == ((doc_max_id(*old(doc)) + 1) as u32, 0u16),
        graph(*final(doc)) == (Graph {
            max_id: id.0,
            objects: doc_objects(*old(doc)).insert(id, object_node(object)),
            ..graph(*old(doc))
        }),
{
    doc.add_object(object)
}

/// `BTreeMap::insert` on the field `objects`: stores the object under `id`,
/// in place of what was there.
#[verifier::external_body]
pub(crate) fn set_object(doc: &mut Document, id: ObjectId, object: Object)
    ensures
        graph(*final(doc)) == (Graph {
            objects: doc_objects(*old(doc)).insert(id, object_node(object)),
            ..graph(*old(doc))
        }),
{
    doc.objects.insert(id, object);
}

/// `Dictionary::set` on the dictionary stored under `id`. Where `id` is
/// absent or holds no dictionary, nothing changes and the result is `false`.
#[verifier::external_body]
pub(crate) fn set_entry(doc: &mut Document, id: ObjectId, key: &str, value: Object) -> (done: bool)
    ensures
        done == dictionary_at(graph(*old(doc)), id).is_some(),
        done ==> graph(*final(doc)) == (Graph {
            objects: doc_objects(*old(doc)).insert(
                id,
                Node::Dictionary(
                    put(
                        dictionary_at(graph(*old(doc)), id).unwrap(),
                        name(key@),
                        object_node(value),
                    ),
                ),
            ),
            ..graph(*old(doc))
        }),
        !done ==> graph(*final(doc)) == graph(*old(doc)),
{
    match doc.objects.get_mut(&id) {
        Some(Object::Dictionary(dict)) => {
            dict.set(key, value);
            true
        },
        _ => false,
    }
}

/// `Dictionary::set` on the field `trailer`.
#[verifier::external_body]
pub(crate) fn set_trailer_entry(doc: &mut Document, key: &str, value: Object)
    ensures
        graph(*final(doc)) == (Graph {
            trailer: put(doc_trailer(*old(doc)), name(key@), object_node(value)),
            ..graph(*old(doc))
        }),
{
    doc.trailer.set(key, value);
}

/// `Vec::len` on the field `bookmarks`.
#[verifier::external_body]
pub(crate) fn bookmark_count(doc: &Document) -> (r: usize)
    ensures
        r == doc_bookmarks(*doc).len(),
{
    doc.bookmarks.len()
}

/// `Vec::clear` on the field `bookmarks`: the list is empty afterwards, and
/// nothing else changes.
#[verifier::external_body]
pub(crate) fn clear_bookmarks(doc: &mut Document)
    ensures
        doc_bookmarks(*final(doc)).len() == 0,
        graph(*final(doc)) == graph(*old(doc)),
{
    doc.bookmarks.clear();
}

/// `Document::renumber_objects_with`: gives the objects the numbers from
/// `start` on, without a gap, and sets the counter to the last of them. The
/// number of objects may fall where two of them met under one identifier, and
/// never rises. The call overflows where the numbers do not fit, and on
/// `start` zero with no object. For each object that it moves it walks the
/// bookmark list and the children of each bookmark, without end where a
/// bookmark is among its own descendants; with an empty list there is no
/// walk.
#[verifier::external_body]
pub(crate) fn renumber(doc: &mut Document, start: u32)
    requires
        start >= 1,
        doc_bookmarks(*old(doc)).len() == 0,
        doc_objects(*old(doc)).len() <= i32::MAX,
        start + doc_objects(*old(doc)).len() <= u32::MAX,
    ensures
        graph(*final(doc)) == renumbered(graph(*old(doc)), start),
        doc_objects(*final(doc)).len() <= doc_objects(*old(doc)).len(),
        doc_max_id(*final(doc)) + 1 == start + doc_objects(*final(doc)).len(),
        forall|id: ObjectId| #[trigger]
            doc_objects(*final(doc)).contains_key(id) ==> start <= id.0 <= doc_max_id(*final(doc)),
{
    doc.renumber_objects_with(start);
}

/// `Document::get_pages`, its values in the order of their page numbers.
#[verifier::external_body]
pub(crate) fn page_ids(doc: &Document) -> (pages: Vec<ObjectId>)
    ensures
        pages@ == page_walk(graph(*doc)),
{
    doc.get_pages().into_values().collect()
}

/// `Document::prune_objects`: removes every object that no chain of
/// references from the trailer leads to, and nothing else.
#[verifier::external_body]
pub(crate) fn prune(doc: &mut Document)
    ensures
        graph(*final(doc)) == pruned(graph(*old(doc))),
{
    doc.prune_objects();
}

/// The field `objects` as a list, by `BTreeMap::into_iter`.
#[verifier::external_body]
pub(crate) fn into_objects(doc: Document) -> (items: Vec<(ObjectId, Object)>)
    ensures
        lists(items@, doc_objects(doc)),
{
    doc.objects.into_iter().collect()
}

/// `Object::Reference`.
#[verifier::external_body]
pub(crate) fn reference_object(id: ObjectId) -> (o: Object)
    ensures
        object_node(o) == Node::Reference(id),
{
    Object::Reference(id)
}

/// `Object::Integer`.
#[verifier::external_body]
pub(crate) fn integer_object(value: i64) -> (o: Object)
    ensures
        object_node(o) == Node::Integer(value),
{
    Object::Integer(value)
}

/// `Object::from` on a string slice: the name with the bytes of the text.
#[verifier::external_body]
pub(crate) fn name_object(text: &str) -> (o: Object)
    ensures
        object_node(o) == Node::Name(name(text@)),
{
    Object::from(text)
}

/// `Object::Array`.
#[verifier::external_body]
pub(crate) fn array_object(items: Vec<Object>) -> (o: Object)
    ensures
        object_node(o) == Node::Array(nodes(items@)),
{
    Object::Array(items)
}

/// `Object::Dictionary`.
#[verifier::external_body]
pub(crate) fn dictionary_object(dict: Dictionary) -> (o: Object)
    ensures
        object_node(o) == Node::Dictionary(dict_entries(dict)),
{
    Object::Dictionary(dict)
}

/// `Stream::new`, as an object: a stream of the given bytes whose dictionary
/// has `Length` set to their number.
#[verifier::external_body]
pub(crate) fn stream_object(dict: Dictionary, content: Vec<u8>) -> (o: Object)
    ensures
        object_node(o) == Node::Stream(
            put(dict_entries(dict), name("Length"@), Node::Integer(content@.len() as i64)),
            content@,
        ),
{
    Object::Stream(lopdf::Stream::new(dict, content))
}

/// `Dictionary::new`.
#[verifier::external_body]
pub(crate) fn new_dictionary() -> (dict: Dictionary)
    ensures
        dict_entries(dict) == no_entries(),
{
    Dictionary::new()
}

/// `Dictionary::set`: an existing key keeps its place and takes the value, a
/// new key goes to the end.
#[verifier::external_body]
pub(crate) fn dictionary_set(dict: &mut Dictionary, key: &str, value: Object)
    ensures
        dict_entries(*final(dict)) == put(dict_entries(*old(dict)), name(key@), object_node(value)),
{
    dict.set(key, value);
}

} // verus!

use vstd::prelude::*;
use vstd::utf8::{encode_utf8, encode_utf8_decode_utf8};

verus! {

/// An object identifier: object number and generation number.
pub type ObjectId = (u32, u16);

/// The entries of a dictionary, in insertion order.
pub type Entries = Seq<(Seq<u8>, Node)>;

/// The mathematical value of one PDF object.
///
/// A real number is held by its bit pattern; a string by its bytes and by
/// whether it is written in hexadecimal notation.
pub enum Node {
    Null,
    Boolean(bool),
    Integer(i64),
    Real(u32),
    Name(Seq<u8>),
    Text(Seq<u8>, bool),
    Array(Seq<Node>),
    Dictionary(Entries),
    Stream(Entries, Seq<u8>),
    Reference(ObjectId),
}

/// The mathematical value of a document: its object table, its trailer
/// dictionary, the counter from which fresh identifiers are drawn, the
/// version of the format that it states, and whether its cross-references
/// are written as a table rather than as a stream.
pub struct Graph {
    pub objects: Map<ObjectId, Node>,
    pub trailer: Entries,
    pub max_id: u32,
    pub version: Seq<char>,
    pub table: bool,
}

/// A dictionary without entries.
pub open spec fn no_entries() -> Entries {
    Seq::empty()
}

/// The document of the given version without objects, with an empty trailer
/// and the counter at zero, whose cross-references are written as a stream.
pub open spec fn empty_graph(version: Seq<char>) -> Graph {
    Graph { objects: Map::empty(), trailer: no_entries(), max_id: 0, version, table: false }
}

/// The bytes of a dictionary key or name written as text.
pub open spec fn name(text: Seq<char>) -> Seq<u8> {
    encode_utf8(text)
}

/// The value stored under `key`, if any.
pub open spec fn lookup(entries: Entries, key: Seq<u8>) -> Option<Node>
    decreases entries.len(),
{
    if entries.len() == 0 {
        None
    } else if entries[0].0 == key {
        Some(entries[0].1)
    } else {
        lookup(entries.drop_first(), key)
    }
}

/// The entries after `key` is set to `value`: an existing entry keeps its
/// place and takes the new value, a new key goes to the end.
pub open spec fn put(entries: Entries, key: Seq<u8>, value: Node) -> Entries
    decreases entries.len(),
{
    if entries.len() == 0 {
        seq![(key, value)]
    } else if entries[0].0 == key {
        seq![(key, value)] + entries.drop_first()
    } else {
        seq![entries[0]] + put(entries.drop_first(), key, value)
    }
}

/// The dictionary that is made by setting the keys one after the other, each
/// key written as text.
pub open spec fn dictionary_of(pairs: Seq<(Seq<char>, Node)>) -> Entries
    decreases pairs.len(),
{
    if pairs.len() == 0 {
        no_entries()
    } else {
        put(dictionary_of(pairs.drop_last()), name(pairs.last().0), pairs.last().1)
    }
}

/// Whether `id` occurs as a reference anywhere inside `node`.
pub open spec fn mentions(node: Node, id: ObjectId) -> bool
    decreases node,
{
    match node {
        Node::Reference(r) => r == id,
        Node::Array(items) => exists|i: int|
            0 <= i < items.len() && mentions(#[trigger] items[i], id),
        Node::Dictionary(entries) => exists|i: int|
            0 <= i < entries.len() && mentions((#[trigger] entries[i]).1, id),
        Node::Stream(entries, _) => exists|i: int|
            0 <= i < entries.len() && mentions((#[trigger] entries[i]).1, id),
        _ => false,
    }
}

/// Whether `id` occurs as a reference anywhere inside the entries.
pub open spec fn entries_mention(entries: Entries, id: ObjectId) -> bool {
    mentions(Node::Dictionary(entries), id)
}

/// The dictionary stored under `id`, if `id` is present and holds one.
pub open spec fn dictionary_at(g: Graph, id: ObjectId) -> Option<Entries> {
    if g.objects.contains_key(id) {
        match g.objects[id] {
            Node::Dictionary(entries) => Some(entries),
            _ => None,
        }
    } else {
        None
    }
}

/// The identifier that the entry `key` refers to, if the entry is a reference.
pub open spec fn reference_at(entries: Entries, key: Seq<u8>) -> Option<ObjectId> {
    match lookup(entries, key) {
        Some(Node::Reference(id)) => Some(id),
        _ => None,
    }
}

/// Every identifier present is at most the counter, so that a fresh
/// identifier never meets an existing one.
pub open spec fn ids_bounded(g: Graph) -> bool {
    forall|id: ObjectId| #[trigger] g.objects.contains_key(id) ==> id.0 <= g.max_id
}

/// Two texts with the same bytes are the same text.
pub proof fn lemma_name_injective(a: Seq<char>, b: Seq<char>)
    requires
        name(a) == name(b),
    ensures
        a == b,
{
    encode_utf8_decode_utf8(a);
    encode_utf8_decode_utf8(b);
}

/// After `put`, the key holds the new value.
pub proof fn lemma_lookup_put_same(entries: Entries, key: Seq<u8>, value: Node)
    ensures
        lookup(put(entries, key, value), key) == Some(value),
    decreases entries.len(),
{
    if entries.len() == 0 {
    } else if entries[0].0 == key {
    } else {
        lemma_lookup_put_same(entries.drop_first(), key, value);
        let rest = put(entries.drop_first(), key, value);
        assert((seq![entries[0]] + rest).drop_first() =~= rest);
    }
}

/// After `put`, every other key holds what it held.
pub proof fn lemma_lookup_put_other(entries: Entries, key: Seq<u8>, value: Node, other: Seq<u8>)
    requires
        other != key,
    ensures
        lookup(put(entries, key, value), other) == lookup(entries, other),
    decreases entries.len(),
{
    reveal_with_fuel(lookup, 2);
    if entries.len() == 0 {
        assert(seq![(key, value)].drop_first() =~= Seq::<(Seq<u8>, Node)>::empty());
    } else if entries[0].0 == key {
        assert((seq![(key, value)] + entries.drop_first()).drop_first() =~= entries.drop_first());
    } else {
        lemma_lookup_put_other(entries.drop_first(), key, value, other);
        let rest = put(entries.drop_first(), key, value);
        assert((seq![entries[0]] + rest).drop_first() =~= rest);
    }
}

/// Setting a key twice to the same value is setting it once.
pub proof fn lemma_put_twice(entries: Entries, key: Seq<u8>, value: Node)
    ensures
        put(put(entries, key, value), key, value) == put(entries, key, value),
    decreases entries.len(),
{
    if entries.len() == 0 {
        assert(seq![(key, value)].drop_first() =~= Seq::<(Seq<u8>, Node)>::empty());
        assert(put(seq![(key, value)], key, value) =~= seq![(key, value)]);
    } else if entries[0].0 == key {
        let once = seq![(key, value)] + entries.drop_first();
        assert(once.drop_first() =~= entries.drop_first());
        assert(put(once, key, value) =~= once);
    } else {
        lemma_put_twice(entries.drop_first(), key, value);
        let rest = put(entries.drop_first(), key, value);
        let once = seq![entries[0]] + rest;
        assert(once.drop_first() =~= rest);
        assert(put(once, key, value) =~= once);
    }
}

/// A value that was put is found again at some position.
pub proof fn lemma_put_holds(entries: Entries, key: Seq<u8>, value: Node) -> (at: int)
    ensures
        0 <= at < put(entries, key, value).len(),
        put(entries, key, value)[at] == (key, value),
    decreases entries.len(),
{
    if entries.len() == 0 {
        0
    } else if entries[0].0 == key {
        0
    } else {
        let inner = lemma_put_holds(entries.drop_first(), key, value);
        inner + 1
    }
}

/// A dictionary refers to what one of its values refers to.
pub proof fn lemma_entry_mentions(entries: Entries, at: int, id: ObjectId)
    requires
        0 <= at < entries.len(),
        mentions(entries[at].1, id),
    ensures
        entries_mention(entries, id),
{
    let node = Node::Dictionary(entries);
    assert(decreases_to!(node => node->Dictionary_0));
    assert(decreases_to!(entries => entries[at]));
    assert(decreases_to!(entries[at] => entries[at].1));
    assert(decreases_to!(node => entries[at].1));
}

/// An array refers to what one of its items refers to.
pub proof fn lemma_item_mentions(items: Seq<Node>, at: int, id: ObjectId)
    requires
        0 <= at < items.len(),
        mentions(items[at], id),
    ensures
        mentions(Node::Array(items), id),
{
    let node = Node::Array(items);
    assert(decreases_to!(node => node->Array_0));
    assert(decreases_to!(items => items[at]));
    assert(decreases_to!(node => items[at]));
}

/// What the new value refers to, the entries refer to after `put`.
pub proof fn lemma_put_mentions(entries: Entries, key: Seq<u8>, value: Node, id: ObjectId)
    requires
        mentions(value, id),
    ensures
        entries_mention(put(entries, key, value), id),
{
    let at = lemma_put_holds(entries, key, value);
    lemma_entry_mentions(put(entries, key, value), at, id);
}

/// One more key set on a dictionary made of pairs.
pub proof fn lemma_dictionary_of_push(pairs: Seq<(Seq<char>, Node)>, key: Seq<char>, value: Node)
    ensures
        dictionary_of(pairs.push((key, value))) == put(dictionary_of(pairs), name(key), value),
{
    assert(pairs.push((key, value)).drop_last() =~= pairs);
}

/// A dictionary that refers to `id` has a value that refers to it.
pub proof fn lemma_mention_entry(entries: Entries, id: ObjectId) -> (at: int)
    requires
        entries_mention(entries, id),
    ensures
        0 <= at < entries.len(),
        mentions(entries[at].1, id),
{
    let node = Node::Dictionary(entries);
    assert forall|i: int| 0 <= i < entries.len() implies decreases_to!(node => (#[trigger] entries[i]).1) by {
        assert(decreases_to!(node => node->Dictionary_0));
        assert(decreases_to!(entries => entries[i]));
        assert(decreases_to!(entries[i] => entries[i].1));
    }
    choose|i: int| 0 <= i < entries.len() && mentions((#[trigger] entries[i]).1, id)
}

/// An array that refers to `id` has an item that refers to it.
pub proof fn lemma_mention_item(items: Seq<Node>, id: ObjectId) -> (at: int)
    requires
        mentions(Node::Array(items), id),
    ensures
        0 <= at < items.len(),
        mentions(items[at], id),
{
    let node = Node::Array(items);
    assert forall|i: int| 0 <= i < items.len() implies decreases_to!(node => #[trigger] items[i]) by {
        assert(decreases_to!(node => node->Array_0));
        assert(decreases_to!(items => items[i]));
    }
    choose|i: int| 0 <= i < items.len() && mentions(#[trigger] items[i], id)
}

/// Each entry after `put` is the entry that was put or an entry that was
/// there.
pub proof fn lemma_put_entry(entries: Entries, key: Seq<u8>, value: Node, at: int) -> (from: int)
    requires
        0 <= at < put(entries, key, value).len(),
    ensures
        put(entries, key, value)[at] == (key, value) || (0 <= from < entries.len() && entries[from]
            == put(entries, key, value)[at]),
    decreases entries.len(),
{
    if entries.len() == 0 {
        0
    } else if entries[0].0 == key {
        at
    } else if at == 0 {
        0
    } else {
        let inner = lemma_put_entry(entries.drop_first(), key, value, at - 1);
        inner + 1
    }
}

/// What the entries refer to after `put`, the new value or the entries
/// before referred to.
pub proof fn lemma_put_mentions_only(entries: Entries, key: Seq<u8>, value: Node, id: ObjectId)
    requires
        entries_mention(put(entries, key, value), id),
    ensures
        mentions(value, id) || entries_mention(entries, id),
{
    let after = put(entries, key, value);
    let at = lemma_mention_entry(after, id);
    let from = lemma_put_entry(entries, key, value, at);
    if after[at] != (key, value) {
        lemma_entry_mentions(entries, from, id);
    }
}

} // verus!

use vstd::prelude::*;
use crate::model::{
    dictionary_at, entries_mention, ids_bounded, lemma_entry_mentions, lemma_item_mentions,
    lemma_lookup_put_same, lemma_mention_entry, lemma_mention_item, lemma_name_injective,
    lemma_put_mentions, lemma_put_mentions_only, lemma_put_twice, lookup, mentions, name,
    no_entries, put, reference_at, Entries, Graph, Node, ObjectId,
};
use crate::reach::{
    closed, lemma_pruned_closed, lemma_pruned_is_minimal, lemma_root_reachable,
    lemma_step_reachable, pruned, reachable, refers,
};
use crate::store::{
    array_object, dictionary_object, dictionary_set, graph, integer_object, max_id, name_object,
    new_dictionary, new_object_id, nodes, object_node, reference_object, set_entry, set_object,
    set_trailer_entry,
};
use lopdf::{Document, Object};

verus! {

/// `id` is present and holds a dictionary.
pub open spec fn resolves(g: Graph, id: ObjectId) -> bool {
    dictionary_at(g, id) is Some
}

/// The targets that resolve, in the order given and as often as given. The
/// others are passed over: an unresolvable page is no error.
pub open spec fn retained(g: Graph, targets: Seq<ObjectId>) -> Seq<ObjectId>
    decreases targets.len(),
{
    if targets.len() == 0 {
        Seq::empty()
    } else {
        let before = retained(g, targets.drop_last());
        if resolves(g, targets.last()) {
            before.push(targets.last())
        } else {
            before
        }
    }
}

/// Every identifier of the list resolves.
pub open spec fn all_resolve(g: Graph, ids: Seq<ObjectId>) -> bool {
    forall|i: int| 0 <= i < ids.len() ==> resolves(g, #[trigger] ids[i])
}

/// One reference for each identifier.
pub open spec fn references(ids: Seq<ObjectId>) -> Seq<Node> {
    ids.map_values(|id: ObjectId| Node::Reference(id))
}

/// The node of a flat page tree over the pages `kids`.
pub open spec fn pages_node(kids: Seq<ObjectId>) -> Node {
    Node::Dictionary(
        seq![
            (name("Type"@), Node::Name(name("Pages"@))),
            (name("Count"@), Node::Integer(kids.len() as i64)),
            (name("Kids"@), Node::Array(references(kids))),
        ],
    )
}

/// The catalog over the page tree `pages`.
pub open spec fn catalog_node(pages: ObjectId) -> Node {
    Node::Dictionary(
        seq![
            (name("Type"@), Node::Name(name("Catalog"@))),
            (name("Pages"@), Node::Reference(pages)),
        ],
    )
}

/// A dictionary with its `Parent` set to `parent`; any other value as it is.
pub open spec fn adopted(node: Node, parent: ObjectId) -> Node {
    match node {
        Node::Dictionary(entries) => Node::Dictionary(
            put(entries, name("Parent"@), Node::Reference(parent)),
        ),
        _ => node,
    }
}

/// The identifier that a rebuild gives the new page tree node.
pub open spec fn new_pages_id(g: Graph) -> ObjectId {
    ((g.max_id + 1) as u32, 0u16)
}

/// The identifier that a rebuild gives the new catalog.
pub open spec fn new_catalog_id(g: Graph) -> ObjectId {
    ((g.max_id + 2) as u32, 0u16)
}

/// The object table with every target adopted by `parent`.
pub open spec fn adopted_objects(
    objects: Map<ObjectId, Node>,
    targets: Seq<ObjectId>,
    parent: ObjectId,
) -> Map<ObjectId, Node> {
    Map::new(
        |id: ObjectId| objects.contains_key(id),
        |id: ObjectId|
            if targets.contains(id) {
                adopted(objects[id], parent)
            } else {
                objects[id]
            },
    )
}

/// The document with a new flat page tree over the targets that resolve: two
/// fresh identifiers are drawn, for the page tree node and for the catalog;
/// each target that resolves names the new node as its parent; the node lists
/// them in the order given; the trailer names the new catalog as the root.
pub open spec fn rebuilt(g: Graph, targets: Seq<ObjectId>) -> Graph {
    Graph {
        objects: adopted_objects(g.objects, targets, new_pages_id(g)).insert(
            new_pages_id(g),
            pages_node(retained(g, targets)),
        ).insert(new_catalog_id(g), catalog_node(new_pages_id(g))),
        trailer: put(g.trailer, name("Root"@), Node::Reference(new_catalog_id(g))),
        max_id: (g.max_id + 2) as u32,
        ..g
    }
}

/// The identifiers that a list of references names, if every item is one.
pub open spec fn referenced(items: Seq<Node>) -> Option<Seq<ObjectId>> {
    if forall|i: int| 0 <= i < items.len() ==> #[trigger] items[i] is Reference {
        Some(items.map_values(|n: Node| n->Reference_0))
    } else {
        None
    }
}

/// The pages of a document with a flat page tree, in order: the trailer's
/// `Root` names a catalog, its `Pages` names a dictionary, and its `Kids` is
/// a list of references. `None` for a document of another shape.
pub open spec fn page_list(g: Graph) -> Option<Seq<ObjectId>> {
    match reference_at(g.trailer, name("Root"@)) {
        Some(catalog) => match dictionary_at(g, catalog) {
            Some(catalog_entries) => match reference_at(catalog_entries, name("Pages"@)) {
                Some(pages) => match dictionary_at(g, pages) {
                    Some(pages_entries) => match lookup(pages_entries, name("Kids"@)) {
                        Some(Node::Array(items)) => referenced(items),
                        _ => None,
                    },
                    None => None,
                },
                None => None,
            },
            None => None,
        },
        None => None,
    }
}

/// The keys that the page tree uses are pairwise different.
pub proof fn lemma_keys_differ()
    ensures
        name("Type"@) != name("Count"@),
        name("Type"@) != name("Kids"@),
        name("Count"@) != name("Kids"@),
        name("Type"@) != name("Pages"@),
{
    reveal_strlit("Type");
    reveal_strlit("Count");
    reveal_strlit("Kids");
    reveal_strlit("Pages");
    if name("Type"@) == name("Count"@) {
        lemma_name_injective("Type"@, "Count"@);
    }
    if name("Type"@) == name("Kids"@) {
        lemma_name_injective("Type"@, "Kids"@);
        assert("Type"@[0] == 'T');
        assert("Kids"@[0] == 'K');
    }
    if name("Count"@) == name("Kids"@) {
        lemma_name_injective("Count"@, "Kids"@);
    }
    if name("Type"@) == name("Pages"@) {
        lemma_name_injective("Type"@, "Pages"@);
    }
}

/// Setting a key that is not there yet adds the entry at the end.
pub proof fn lemma_put_new(entries: Entries, key: Seq<u8>, value: Node)
    requires
        forall|i: int| 0 <= i < entries.len() ==> (#[trigger] entries[i]).0 != key,
    ensures
        put(entries, key, value) == entries.push((key, value)),
    decreases entries.len(),
{
    if entries.len() == 0 {
        assert(put(entries, key, value) =~= entries.push((key, value)));
    } else {
        let rest = entries.drop_first();
        assert forall|i: int| 0 <= i < rest.len() implies (#[trigger] rest[i]).0 != key by {
            assert(rest[i] == entries[i + 1]);
        }
        lemma_put_new(rest, key, value);
        assert(entries[0].0 != key);
        assert(seq![entries[0]] + rest.push((key, value)) =~= entries.push((key, value)));
    }
}

/// The page tree node, built entry by entry, is the node written out.
pub proof fn lemma_pages_node_built(kids: Seq<ObjectId>)
    ensures
        Node::Dictionary(
            put(
                put(
                    put(no_entries(), name("Type"@), Node::Name(name("Pages"@))),
                    name("Count"@),
                    Node::Integer(kids.len() as i64),
                ),
                name("Kids"@),
                Node::Array(references(kids)),
            ),
        ) == pages_node(kids),
{
    lemma_keys_differ();
    let first = (name("Type"@), Node::Name(name("Pages"@)));
    let second = (name("Count"@), Node::Integer(kids.len() as i64));
    let third = (name("Kids"@), Node::Array(references(kids)));
    lemma_put_new(no_entries(), first.0, first.1);
    assert(no_entries().push(first) =~= seq![first]);
    lemma_put_new(seq![first], second.0, second.1);
    assert(seq![first].push(second) =~= seq![first, second]);
    lemma_put_new(seq![first, second], third.0, third.1);
    assert(seq![first, second].push(third) =~= seq![first, second, third]);
}

/// The catalog, built entry by entry, is the catalog written out.
pub proof fn lemma_catalog_node_built(pages: ObjectId)
    ensures
        Node::Dictionary(
            put(
                put(no_entries(), name("Type"@), Node::Name(name("Catalog"@))),
                name("Pages"@),
                Node::Reference(pages),
            ),
        ) == catalog_node(pages),
{
    lemma_keys_differ();
    let first = (name("Type"@), Node::Name(name("Catalog"@)));
    let second = (name("Pages"@), Node::Reference(pages));
    lemma_put_new(no_entries(), first.0, first.1);
    assert(no_entries().push(first) =~= seq![first]);
    lemma_put_new(seq![first], second.0, second.1);
    assert(seq![first].push(second) =~= seq![first, second]);
}

/// What is retained of a list with one more target at its end.
pub proof fn lemma_retained_push(g: Graph, targets: Seq<ObjectId>, next: ObjectId)
    ensures
        retained(g, targets.push(next)) == if resolves(g, next) {
            retained(g, targets).push(next)
        } else {
            retained(g, targets)
        },
{
    assert(targets.push(next).drop_last() =~= targets);
}

/// The retained targets are targets, and they resolve; a target that
/// resolves is retained.
pub proof fn lemma_retained_members(g: Graph, targets: Seq<ObjectId>)
    ensures
        retained(g, targets).len() <= targets.len(),
        forall|i: int|
            0 <= i < retained(g, targets).len() ==> resolves(g, #[trigger] retained(g, targets)[i])
                && targets.contains(retained(g, targets)[i]),
        forall|i: int|
            0 <= i < targets.len() && resolves(g, #[trigger] targets[i]) ==> retained(
                g,
                targets,
            ).contains(targets[i]),
    decreases targets.len(),
{
    if targets.len() > 0 {
        let front = targets.drop_last();
        lemma_retained_members(g, front);
        let kept = retained(g, targets);
        let before = retained(g, front);
        assert forall|i: int| 0 <= i < kept.len() implies resolves(g, #[trigger] kept[i])
            && targets.contains(kept[i]) by {
            if i < before.len() {
                assert(kept[i] == before[i]);
                let j = choose|j: int| 0 <= j < front.len() && front[j] == before[i];
                assert(targets[j] == kept[i]);
            } else {
                assert(kept[i] == targets[targets.len() - 1]);
            }
        }
        assert forall|i: int|
            0 <= i < targets.len() && resolves(g, #[trigger] targets[i]) implies kept.contains(
            targets[i],
        ) by {
            if i < front.len() {
                assert(front[i] == targets[i]);
                let j = choose|j: int| 0 <= j < before.len() && before[j] == front[i];
                assert(kept[j] == targets[i]);
            } else {
                assert(kept[kept.len() - 1] == targets[i]);
            }
        }
    }
}

/// Where every target resolves, all of them are retained.
pub proof fn lemma_retained_all(g: Graph, targets: Seq<ObjectId>)
    requires
        forall|i: int| 0 <= i < targets.len() ==> resolves(g, #[trigger] targets[i]),
    ensures
        retained(g, targets) == targets,
    decreases targets.len(),
{
    if targets.len() > 0 {
        let front = targets.drop_last();
        assert forall|i: int| 0 <= i < front.len() implies resolves(g, #[trigger] front[i]) by {
            assert(front[i] == targets[i]);
        }
        lemma_retained_all(g, front);
        assert(front.push(targets.last()) =~= targets);
    } else {
        assert(targets =~= Seq::empty());
    }
}

/// A document whose trailer names a catalog, whose catalog names a page
/// tree node, and whose node lists `kids`, has the pages `kids`.
pub proof fn lemma_flat_tree(g: Graph, catalog_id: ObjectId, pages_id: ObjectId, kids: Seq<ObjectId>)
    requires
        reference_at(g.trailer, name("Root"@)) == Some(catalog_id),
        g.objects.contains_key(catalog_id),
        g.objects[catalog_id] == catalog_node(pages_id),
        g.objects.contains_key(pages_id),
        g.objects[pages_id] == pages_node(kids),
    ensures
        page_list(g) == Some(kids),
{
    lemma_keys_differ();
    reveal_with_fuel(lookup, 4);
    let catalog_entries = catalog_node(pages_id)->Dictionary_0;
    assert(lookup(catalog_entries, name("Pages"@)) == Some(Node::Reference(pages_id)));
    let pages_entries = pages_node(kids)->Dictionary_0;
    assert(lookup(pages_entries, name("Kids"@)) == Some(Node::Array(references(kids))));
    assert(referenced(references(kids)) == Some(kids)) by {
        assert(references(kids).map_values(|n: Node| n->Reference_0) =~= kids);
    }
}

/// A rebuilt document has the flat page tree over the retained targets, and
/// pruning keeps that tree and every page in it.
pub proof fn lemma_rebuilt_page_list(g: Graph, targets: Seq<ObjectId>)
    requires
        g.max_id <= u32::MAX - 2,
    ensures
        page_list(rebuilt(g, targets)) == Some(retained(g, targets)),
        page_list(pruned(rebuilt(g, targets))) == Some(retained(g, targets)),
        forall|i: int|
            0 <= i < retained(g, targets).len() ==> #[trigger] pruned(
                rebuilt(g, targets),
            ).objects.contains_key(retained(g, targets)[i]),
{
    let r = rebuilt(g, targets);
    let p = pruned(r);
    let kept = retained(g, targets);
    let pages_id = new_pages_id(g);
    let catalog_id = new_catalog_id(g);
    lemma_retained_members(g, targets);
    lemma_lookup_put_same(g.trailer, name("Root"@), Node::Reference(catalog_id));
    assert(pages_id != catalog_id);
    lemma_flat_tree(r, catalog_id, pages_id, kept);
    // catalog, page tree node and pages are reachable, so pruning keeps them
    let catalog_entries = catalog_node(pages_id)->Dictionary_0;
    let pages_entries = pages_node(kept)->Dictionary_0;
    lemma_put_mentions(g.trailer, name("Root"@), Node::Reference(catalog_id), catalog_id);
    lemma_root_reachable(r, catalog_id);
    assert(mentions(catalog_entries[1].1, pages_id));
    lemma_entry_mentions(catalog_entries, 1, pages_id);
    assert(refers(r, catalog_id, pages_id));
    lemma_step_reachable(r, catalog_id, pages_id);
    lemma_pruned_is_minimal(r);
    lemma_flat_tree(p, catalog_id, pages_id, kept);
    assert forall|i: int| 0 <= i < kept.len() implies #[trigger] p.objects.contains_key(
        kept[i],
    ) by {
        let kids = references(kept);
        assert(mentions(kids[i], kept[i]));
        lemma_item_mentions(kids, i, kept[i]);
        assert(mentions(pages_entries[2].1, kept[i]));
        lemma_entry_mentions(pages_entries, 2, kept[i]);
        assert(refers(r, pages_id, kept[i]));
        lemma_step_reachable(r, pages_id, kept[i]);
        assert(resolves(g, kept[i]));
        assert(r.objects.contains_key(kept[i]));
    }
}

/// In a rebuilt document whose identifiers were bounded, every retained page
/// is a dictionary that names the new page tree node as its parent, also
/// after pruning; and the identifiers are bounded again.
pub proof fn lemma_rebuilt_parents(g: Graph, targets: Seq<ObjectId>)
    requires
        g.max_id <= u32::MAX - 2,
        ids_bounded(g),
    ensures
        ids_bounded(rebuilt(g, targets)),
        forall|i: int|
            0 <= i < retained(g, targets).len() ==> {
                let page = #[trigger] retained(g, targets)[i];
                let after = dictionary_at(pruned(rebuilt(g, targets)), page);
                after is Some && reference_at(after.unwrap(), name("Parent"@)) == Some(
                    new_pages_id(g),
                )
            },
{
    let r = rebuilt(g, targets);
    let kept = retained(g, targets);
    let pages_id = new_pages_id(g);
    lemma_retained_members(g, targets);
    lemma_rebuilt_page_list(g, targets);
    lemma_pruned_is_minimal(r);
    assert forall|id: ObjectId| #[trigger] r.objects.contains_key(id) implies id.0 <= r.max_id by {
        if id != pages_id && id != new_catalog_id(g) {
            assert(g.objects.contains_key(id));
        }
    }
    assert forall|i: int| 0 <= i < kept.len() implies {
        let page = #[trigger] kept[i];
        let after = dictionary_at(pruned(r), page);
        after is Some && reference_at(after.unwrap(), name("Parent"@)) == Some(pages_id)
    } by {
        let page = kept[i];
        assert(resolves(g, page));
        assert(g.objects.contains_key(page));
        assert(page.0 <= g.max_id);
        assert(targets.contains(page));
        let before = dictionary_at(g, page).unwrap();
        assert(r.objects[page] == adopted(g.objects[page], pages_id));
        lemma_lookup_put_same(before, name("Parent"@), Node::Reference(pages_id));
        assert(pruned(r).objects.contains_key(page));
    }
}

/// Rebuilding leaves no reference dangling: where every reference in the
/// objects of a document resolves, it does so in the rebuilt document, and
/// in the rebuilt document once it is pruned.
pub proof fn lemma_rebuilt_closed(g: Graph, targets: Seq<ObjectId>)
    requires
        g.max_id <= u32::MAX - 2,
        closed(g),
    ensures
        closed(rebuilt(g, targets)),
        closed(pruned(rebuilt(g, targets))),
{
    let r = rebuilt(g, targets);
    let kept = retained(g, targets);
    let pages_id = new_pages_id(g);
    let catalog_id = new_catalog_id(g);
    lemma_retained_members(g, targets);
    assert forall|from: ObjectId, to: ObjectId| #[trigger] refers(r, from, to) implies r.objects.contains_key(
        to,
    ) by {
        if from == catalog_id {
            let entries = catalog_node(pages_id)->Dictionary_0;
            let at = lemma_mention_entry(entries, to);
            assert(at == 1);
            assert(to == pages_id);
        } else if from == pages_id {
            let entries = pages_node(kept)->Dictionary_0;
            let at = lemma_mention_entry(entries, to);
            assert(at == 2);
            let item = lemma_mention_item(references(kept), to);
            assert(to == kept[item]);
            assert(resolves(g, kept[item]));
        } else {
            assert(g.objects.contains_key(from));
            let before = g.objects[from];
            if targets.contains(from) && before is Dictionary {
                let entries = before->Dictionary_0;
                lemma_put_mentions_only(entries, name("Parent"@), Node::Reference(pages_id), to);
                if entries_mention(entries, to) {
                    assert(refers(g, from, to));
                    assert(g.objects.contains_key(to));
                } else {
                    assert(to == pages_id);
                }
            } else {
                assert(r.objects[from] == before);
                assert(refers(g, from, to));
                assert(g.objects.contains_key(to));
            }
        }
    }
    lemma_pruned_closed(r);
}

/// Rebuilds the page tree of `doc` over `targets`, in the order given, if
/// the counter leaves room for two more identifiers: the document then
/// becomes `rebuilt` of what it was, and the old catalog and page tree stay
/// in the table, no longer reachable. Without that room nothing changes, and
/// the result is `false`.
pub fn rebuild_page_tree(doc: &mut Document, targets: &Vec<ObjectId>) -> (done: bool)
    ensures
        done == (graph(*old(doc)).max_id <= u32::MAX - 2),
        done ==> graph(*final(doc)) == rebuilt(graph(*old(doc)), targets@),
        !done ==> graph(*final(doc)) == graph(*old(doc)),
{
    if max_id(doc) > u32::MAX - 2 {
        return false;
    }
    rebuild(doc, targets);
    true
}

/// Rebuilds the page tree of a document whose counter leaves room for two
/// more identifiers.
pub(crate) fn rebuild(doc: &mut Document, targets: &Vec<ObjectId>)
    requires
        graph(*old(doc)).max_id <= u32::MAX - 2,
    ensures
        graph(*final(doc)) == rebuilt(graph(*old(doc)), targets@),
{
    let ghost before = graph(*doc);
    let pages_id = new_object_id(doc);
    let catalog_id = new_object_id(doc);
    let mut kids: Vec<Object> = Vec::new();
    let mut i: usize = 0;
    proof {
        assert(graph(*doc).objects =~= adopted_objects(before.objects, targets@.take(0), pages_id));
    }
    while i < targets.len()
        invariant
            0 <= i <= targets.len(),
            pages_id == new_pages_id(before),
            graph(*doc) == (Graph {
                objects: adopted_objects(before.objects, targets@.take(i as int), pages_id),
                max_id: (before.max_id + 2) as u32,
                ..before
            }),
            before.max_id <= u32::MAX - 2,
            nodes(kids@) == references(retained(before, targets@.take(i as int))),
        decreases targets.len() - i,
    {
        let id = targets[i];
        let ghost seen = targets@.take(i as int);
        let done = set_entry(doc, id, "Parent", reference_object(pages_id));
        proof {
            assert(targets@.take(i + 1) =~= seen.push(id));
            lemma_retained_push(before, seen, id);
            assert(done == resolves(before, id));
            if done {
                let entries = dictionary_at(before, id).unwrap();
                if seen.contains(id) {
                    lemma_put_twice(entries, name("Parent"@), Node::Reference(pages_id));
                }
            }
            assert forall|other: ObjectId| seen.push(id).contains(other) <==> (seen.contains(other)
                || other == id) by {
                if seen.contains(other) {
                    let j = choose|j: int| 0 <= j < seen.len() && seen[j] == other;
                    assert(seen.push(id)[j] == other);
                }
                if other == id {
                    assert(seen.push(id)[seen.len() as int] == id);
                }
            }
            assert(graph(*doc).objects =~= adopted_objects(
                before.objects,
                seen.push(id),
                pages_id,
            ));
        }
        if done {
            let kid = reference_object(id);
            let ghost listed = kids@;
            kids.push(kid);
            proof {
                let kept = retained(before, seen);
                assert(nodes(listed.push(kid)) =~= nodes(listed).push(object_node(kid)));
                assert(references(kept.push(id)) =~= references(kept).push(Node::Reference(id)));
            }
        }
        i += 1;
    }
    proof {
        assert(targets@.take(targets.len() as int) =~= targets@);
        lemma_pages_node_built(retained(before, targets@));
        lemma_catalog_node_built(pages_id);
        assert(nodes(kids@).len() == kids@.len());
    }
    let count = #[verifier::truncate]
    (kids.len() as i64);
    let mut pages = new_dictionary();
    dictionary_set(&mut pages, "Type", name_object("Pages"));
    dictionary_set(&mut pages, "Count", integer_object(count));
    dictionary_set(&mut pages, "Kids", array_object(kids));
    set_object(doc, pages_id, dictionary_object(pages));
    let mut catalog = new_dictionary();
    dictionary_set(&mut catalog, "Type", name_object("Catalog"));
    dictionary_set(&mut catalog, "Pages", reference_object(pages_id));
    set_object(doc, catalog_id, dictionary_object(catalog));
    set_trailer_entry(doc, "Root", reference_object(catalog_id));
}

} // verus!

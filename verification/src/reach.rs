use vstd::prelude::*;
use crate::model::{entries_mention, mentions, Graph, ObjectId};

verus! {

/// The object stored under `from` holds a reference to `to`.
pub open spec fn refers(g: Graph, from: ObjectId, to: ObjectId) -> bool {
    g.objects.contains_key(from) && mentions(g.objects[from], to)
}

/// `id` is met after following `steps` references, the first of them out of
/// the trailer.
pub open spec fn reached_within(g: Graph, id: ObjectId, steps: nat) -> bool
    decreases steps,
{
    if steps == 0 {
        entries_mention(g.trailer, id)
    } else {
        exists|via: ObjectId|
            reached_within(g, via, (steps - 1) as nat) && #[trigger] refers(g, via, id)
    }
}

/// `id` is met by following references from the trailer.
pub open spec fn reachable(g: Graph, id: ObjectId) -> bool {
    exists|steps: nat| reached_within(g, id, steps)
}

/// The identifiers met by following references from the trailer.
pub open spec fn reachable_set(g: Graph) -> Set<ObjectId> {
    Set::new(|id: ObjectId| reachable(g, id))
}

/// The document with every object dropped that no chain of references from
/// the trailer leads to.
pub open spec fn pruned(g: Graph) -> Graph {
    Graph { objects: g.objects.restrict(reachable_set(g)), ..g }
}

/// Every reference that a present object holds leads to a present object.
pub open spec fn closed(g: Graph) -> bool {
    forall|from: ObjectId, to: ObjectId| #[trigger] refers(g, from, to) ==> g.objects.contains_key(to)
}

/// What the trailer refers to is reachable.
pub proof fn lemma_root_reachable(g: Graph, id: ObjectId)
    requires
        entries_mention(g.trailer, id),
    ensures
        reachable(g, id),
{
    assert(reached_within(g, id, 0));
}

/// What a reachable object refers to is reachable.
pub proof fn lemma_step_reachable(g: Graph, from: ObjectId, to: ObjectId)
    requires
        reachable(g, from),
        refers(g, from, to),
    ensures
        reachable(g, to),
{
    let steps = choose|steps: nat| reached_within(g, from, steps);
    assert(reached_within(g, to, steps + 1));
}

/// Pruning changes no chain of references from the trailer.
pub proof fn lemma_pruned_keeps_chains(g: Graph, id: ObjectId, steps: nat)
    ensures
        reached_within(g, id, steps) <==> reached_within(pruned(g), id, steps),
    decreases steps,
{
    let p = pruned(g);
    if steps > 0 {
        let before = (steps - 1) as nat;
        if reached_within(g, id, steps) {
            let via = choose|via: ObjectId|
                reached_within(g, via, before) && #[trigger] refers(g, via, id);
            lemma_pruned_keeps_chains(g, via, before);
            assert(reachable(g, via));
            assert(reachable_set(g).contains(via));
            assert(refers(p, via, id));
        }
        if reached_within(p, id, steps) {
            let via = choose|via: ObjectId|
                reached_within(p, via, before) && #[trigger] refers(p, via, id);
            lemma_pruned_keeps_chains(g, via, before);
            assert(refers(g, via, id));
        }
    }
}

/// Pruning changes nothing about what is reachable.
pub proof fn lemma_pruned_keeps_reachable(g: Graph)
    ensures
        reachable_set(pruned(g)) == reachable_set(g),
{
    let p = pruned(g);
    assert forall|id: ObjectId| reachable(p, id) <==> reachable(g, id) by {
        if reachable(p, id) {
            let steps = choose|steps: nat| reached_within(p, id, steps);
            lemma_pruned_keeps_chains(g, id, steps);
        }
        if reachable(g, id) {
            let steps = choose|steps: nat| reached_within(g, id, steps);
            lemma_pruned_keeps_chains(g, id, steps);
        }
    }
    assert(reachable_set(p) =~= reachable_set(g));
}

/// Pruning twice is pruning once.
pub proof fn lemma_prune_idempotent(g: Graph)
    ensures
        pruned(pruned(g)) == pruned(g),
{
    lemma_pruned_keeps_reachable(g);
    assert(pruned(pruned(g)).objects =~= pruned(g).objects);
}

/// A pruned document holds exactly the reachable objects of the document it
/// was made from, each with the value it had, and nothing in it is
/// unreachable.
pub proof fn lemma_pruned_is_minimal(g: Graph)
    ensures
        forall|id: ObjectId| #[trigger]
            pruned(g).objects.contains_key(id) <==> g.objects.contains_key(id) && reachable(g, id),
        forall|id: ObjectId| #[trigger]
            pruned(g).objects.contains_key(id) ==> pruned(g).objects[id] == g.objects[id],
        forall|id: ObjectId| #[trigger]
            pruned(g).objects.contains_key(id) ==> reachable(pruned(g), id),
{
    lemma_pruned_keeps_reachable(g);
    assert forall|id: ObjectId| #[trigger] pruned(g).objects.contains_key(id) implies reachable(
        pruned(g),
        id,
    ) by {
        assert(reachable_set(g).contains(id));
        assert(reachable_set(pruned(g)).contains(id));
    }
}

/// A reference held by an object that pruning keeps resolves afterwards
/// exactly if it resolved before: pruning leaves no reference dangling that
/// was not dangling already.
pub proof fn lemma_pruned_resolves(g: Graph, from: ObjectId, to: ObjectId)
    requires
        refers(pruned(g), from, to),
    ensures
        pruned(g).objects.contains_key(to) <==> g.objects.contains_key(to),
{
    assert(reachable_set(g).contains(from));
    assert(refers(g, from, to));
    lemma_step_reachable(g, from, to);
    assert(reachable_set(g).contains(to));
}

/// A document in which every reference resolves stays so when pruned.
pub proof fn lemma_pruned_closed(g: Graph)
    requires
        closed(g),
    ensures
        closed(pruned(g)),
{
    assert forall|from: ObjectId, to: ObjectId| #[trigger]
        refers(pruned(g), from, to) implies pruned(g).objects.contains_key(to) by {
        lemma_pruned_resolves(g, from, to);
        assert(refers(g, from, to));
    }
}

/// Pruning keeps the bound on the identifiers.
pub proof fn lemma_pruned_bounded(g: Graph)
    requires
        crate::model::ids_bounded(g),
    ensures
        crate::model::ids_bounded(pruned(g)),
{
    assert forall|id: ObjectId| #[trigger] pruned(g).objects.contains_key(id) implies id.0
        <= pruned(g).max_id by {
        assert(g.objects.contains_key(id));
    }
}

} // verus!

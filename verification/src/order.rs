use vstd::prelude::*;
use vstd::relations::{sorted_by, total_ordering};
use vstd::seq_lib::{group_to_multiset_ensures, lemma_multiset_commutative, lemma_sorted_unique};
use crate::model::ObjectId;

verus! {

/// `a` comes no later than `b`: by number, then by generation.
pub open spec fn precedes(a: ObjectId, b: ObjectId) -> bool {
    a.0 < b.0 || (a.0 == b.0 && a.1 <= b.1)
}

/// The order of identifiers, as a relation.
pub open spec fn id_order() -> spec_fn(ObjectId, ObjectId) -> bool {
    |a: ObjectId, b: ObjectId| precedes(a, b)
}

/// The identifiers of `ids` in ascending order, each as often as it occurs.
/// This is the order that stands for the order of the pages of a document.
pub open spec fn ascending(ids: Seq<ObjectId>) -> Seq<ObjectId> {
    ids.sort_by(id_order())
}

/// The order of identifiers is total.
pub proof fn lemma_id_order_total()
    ensures
        total_ordering(id_order()),
{
    assert(forall|a: ObjectId, b: ObjectId|
        precedes(a, b) && precedes(b, a) ==> a.0 == b.0 && a.1 == b.1);
}

/// `ascending` sorts: its result is in order and holds what `ids` holds; in
/// particular it is as long.
pub proof fn lemma_ascending(ids: Seq<ObjectId>)
    ensures
        sorted_by(ascending(ids), id_order()),
        ascending(ids).to_multiset() == ids.to_multiset(),
        ascending(ids).len() == ids.len(),
        forall|id: ObjectId| ascending(ids).contains(id) <==> ids.contains(id),
{
    lemma_id_order_total();
    ids.lemma_sort_by_ensures(id_order());
    let sorted = ascending(ids);
    ids.to_multiset_ensures();
    sorted.to_multiset_ensures();
    assert forall|id: ObjectId| sorted.contains(id) <==> ids.contains(id) by {
        assert(sorted.to_multiset().count(id) == ids.to_multiset().count(id));
    }
}

/// A list in order that holds what `ids` holds is `ascending(ids)`.
pub proof fn lemma_ascending_unique(ids: Seq<ObjectId>, sorted: Seq<ObjectId>)
    requires
        sorted_by(sorted, id_order()),
        sorted.to_multiset() == ids.to_multiset(),
    ensures
        sorted == ascending(ids),
{
    lemma_id_order_total();
    lemma_ascending(ids);
    lemma_sorted_unique(sorted, ascending(ids), id_order());
}

/// Whether `a` comes strictly before `b`.
fn comes_before(a: ObjectId, b: ObjectId) -> (r: bool)
    ensures
        r == !precedes(b, a),
{
    a.0 < b.0 || (a.0 == b.0 && a.1 < b.1)
}

/// Sorts identifiers in ascending order.
pub fn sort_ids(ids: &Vec<ObjectId>) -> (sorted: Vec<ObjectId>)
    ensures
        sorted@ == ascending(ids@),
{
    let mut sorted: Vec<ObjectId> = Vec::new();
    let mut i: usize = 0;
    proof {
        assert(ids@.take(0) =~= Seq::<ObjectId>::empty());
    }
    while i < ids.len()
        invariant
            0 <= i <= ids.len(),
            sorted_by(sorted@, id_order()),
            sorted@.to_multiset() == ids@.take(i as int).to_multiset(),
        decreases ids.len() - i,
    {
        let item = ids[i];
        let mut at: usize = sorted.len();
        while at > 0 && comes_before(item, sorted[at - 1])
            invariant
                0 <= at <= sorted.len(),
                forall|k: int| at <= k < sorted.len() ==> precedes(item, #[trigger] sorted@[k]),
            decreases at,
        {
            at -= 1;
        }
        let ghost before = sorted@;
        sorted.insert(at, item);
        proof {
            broadcast use group_to_multiset_ensures;

            let after = sorted@;
            assert forall|a: int, b: int| 0 <= a < b < after.len() implies #[trigger] id_order()(
                after[a],
                after[b],
            ) by {
                if b < at {
                    assert(id_order()(before[a], before[b]));
                } else if b == at {
                    assert(id_order()(before[a], before[at - 1]) || a == at - 1);
                } else if a < at {
                    assert(id_order()(before[a], before[b - 1]));
                } else if a == at {
                    assert(precedes(item, before[b - 1]));
                } else {
                    assert(id_order()(before[a - 1], before[b - 1]));
                }
            }
            let front = before.take(at as int);
            let back = before.skip(at as int);
            assert(before =~= front + back);
            assert(after =~= front.push(item) + back);
            lemma_multiset_commutative(front, back);
            lemma_multiset_commutative(front.push(item), back);
            assert(after.to_multiset() =~= before.to_multiset().insert(item));
            assert(ids@.take(i + 1) =~= ids@.take(i as int).push(item));
        }
        i += 1;
    }
    proof {
        assert(ids@.take(ids.len() as int) =~= ids@);
        lemma_ascending_unique(ids@, sorted@);
    }
    sorted
}

} // verus!

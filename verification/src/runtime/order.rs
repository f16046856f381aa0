//! Putting panes into an order that someone else decided.

use crate::backend::PaneId;
use vstd::prelude::*;
use vstd::seq_lib::{to_multiset_build, to_multiset_contains};

verus! {

/// The ids of `order` that are among `ids`, each where it first occurs.
pub open spec fn known_once(ids: Seq<PaneId>, order: Seq<PaneId>) -> Seq<PaneId>
    decreases order.len(),
{
    if order.len() == 0 {
        Seq::empty()
    } else {
        let before = known_once(ids, order.drop_last());
        if ids.contains(order.last()) && !before.contains(order.last()) {
            before.push(order.last())
        } else {
            before
        }
    }
}

/// How many of `ids` stand in `order`.
pub open spec fn listed_count(ids: Seq<PaneId>, order: Seq<PaneId>) -> nat
    decreases ids.len(),
{
    if ids.len() == 0 {
        0
    } else {
        listed_count(ids.drop_last(), order) + if order.contains(ids.last()) {
            1nat
        } else {
            0nat
        }
    }
}

/// `ids` with the places of those that `order` lists given to `listed`, one
/// after another; the others keep their place.
pub open spec fn filled(ids: Seq<PaneId>, order: Seq<PaneId>, listed: Seq<PaneId>) -> Seq<PaneId>
    decreases ids.len(),
{
    if ids.len() == 0 {
        Seq::empty()
    } else {
        let before = filled(ids.drop_last(), order, listed);
        if order.contains(ids.last()) {
            before.push(listed[listed_count(ids.drop_last(), order) as int])
        } else {
            before.push(ids.last())
        }
    }
}

/// `ids` in the order that `order` asks for. Ids it lists and that are not
/// among `ids` are ignored, and ids it omits keep their place.
pub open spec fn arranged(ids: Seq<PaneId>, order: Seq<PaneId>) -> Seq<PaneId> {
    filled(ids, order, known_once(ids, order))
}

proof fn lemma_known_once(ids: Seq<PaneId>, order: Seq<PaneId>)
    ensures
        known_once(ids, order).no_duplicates(),
        forall|id: PaneId|
            #![trigger known_once(ids, order).contains(id)]
            known_once(ids, order).contains(id) <==> ids.contains(id) && order.contains(id),
    decreases order.len(),
{
    broadcast use vstd::seq_lib::group_seq_properties;

    if order.len() > 0 {
        lemma_known_once(ids, order.drop_last());
        let last = order.last();
        let before = known_once(ids, order.drop_last());
        assert(order =~= order.drop_last().push(last));
        assert forall|id: PaneId|
            #![trigger known_once(ids, order).contains(id)]
            known_once(ids, order).contains(id) <==> ids.contains(id) && order.contains(id) by {
            assert(order.contains(id) <==> order.drop_last().contains(id) || id == last);
            assert(before.contains(id) <==> ids.contains(id) && order.drop_last().contains(id));
        }
    }
}

/// The ids that `order` lists, in the order they stand in `ids`.
spec fn listed(ids: Seq<PaneId>, order: Seq<PaneId>) -> Seq<PaneId>
    decreases ids.len(),
{
    if ids.len() == 0 {
        Seq::empty()
    } else if order.contains(ids.last()) {
        listed(ids.drop_last(), order).push(ids.last())
    } else {
        listed(ids.drop_last(), order)
    }
}

spec fn omitted(ids: Seq<PaneId>, order: Seq<PaneId>) -> Seq<PaneId>
    decreases ids.len(),
{
    if ids.len() == 0 {
        Seq::empty()
    } else if order.contains(ids.last()) {
        omitted(ids.drop_last(), order)
    } else {
        omitted(ids.drop_last(), order).push(ids.last())
    }
}

proof fn lemma_listed(ids: Seq<PaneId>, order: Seq<PaneId>)
    requires
        ids.no_duplicates(),
    ensures
        listed(ids, order).no_duplicates(),
        listed(ids, order).len() == listed_count(ids, order),
        forall|id: PaneId|
            #![trigger listed(ids, order).contains(id)]
            listed(ids, order).contains(id) <==> ids.contains(id) && order.contains(id),
        ids.to_multiset() == listed(ids, order).to_multiset().add(
            omitted(ids, order).to_multiset(),
        ),
    decreases ids.len(),
{
    broadcast use vstd::seq_lib::group_seq_properties;

    if ids.len() > 0 {
        let rest = ids.drop_last();
        let last = ids.last();
        lemma_listed(rest, order);
        assert(ids =~= rest.push(last));
        assert(!rest.contains(last));
        to_multiset_build(rest, last);
        to_multiset_build(listed(rest, order), last);
        to_multiset_build(omitted(rest, order), last);
        assert(!listed(rest, order).contains(last));
        assert(listed(rest, order).push(last).no_duplicates());
        assert(ids.to_multiset() =~= listed(ids, order).to_multiset().add(
            omitted(ids, order).to_multiset(),
        ));
        assert forall|id: PaneId|
            #![trigger listed(ids, order).contains(id)]
            listed(ids, order).contains(id) <==> ids.contains(id) && order.contains(id) by {
            assert(ids.contains(id) <==> rest.contains(id) || id == last);
            assert(listed(rest, order).contains(id) <==> rest.contains(id) && order.contains(id));
        }
    } else {
        ids.to_multiset_ensures();
        listed(ids, order).to_multiset_ensures();
        omitted(ids, order).to_multiset_ensures();
        assert(ids.to_multiset() =~= listed(ids, order).to_multiset().add(
            omitted(ids, order).to_multiset(),
        ));
    }
}

proof fn lemma_same_elements(a: Seq<PaneId>, b: Seq<PaneId>)
    requires
        a.no_duplicates(),
        b.no_duplicates(),
        forall|id: PaneId| a.contains(id) <==> b.contains(id),
    ensures
        a.to_multiset() == b.to_multiset(),
        a.len() == b.len(),
{
    a.lemma_multiset_has_no_duplicates();
    b.lemma_multiset_has_no_duplicates();
    assert forall|id: PaneId| a.to_multiset().count(id) == b.to_multiset().count(id) by {
        to_multiset_contains(a, id);
        to_multiset_contains(b, id);
        assert(a.contains(id) <==> b.contains(id));
        assert(a.to_multiset().contains(id) ==> a.to_multiset().count(id) == 1);
        assert(b.to_multiset().contains(id) ==> b.to_multiset().count(id) == 1);
    }
    assert(a.to_multiset() =~= b.to_multiset());
    a.to_multiset_ensures();
    b.to_multiset_ensures();
}

proof fn lemma_filled(ids: Seq<PaneId>, order: Seq<PaneId>, places: Seq<PaneId>)
    requires
        listed_count(ids, order) <= places.len(),
    ensures
        filled(ids, order, places).len() == ids.len(),
        filled(ids, order, places).to_multiset() == omitted(ids, order).to_multiset().add(
            places.take(listed_count(ids, order) as int).to_multiset(),
        ),
    decreases ids.len(),
{
    let n = listed_count(ids, order) as int;
    if ids.len() > 0 {
        let rest = ids.drop_last();
        let last = ids.last();
        lemma_filled(rest, order, places);
        let k = listed_count(rest, order) as int;
        to_multiset_build(filled(rest, order, places), last);
        to_multiset_build(omitted(rest, order), last);
        if order.contains(last) {
            to_multiset_build(filled(rest, order, places), places[k]);
            to_multiset_build(places.take(k), places[k]);
            assert(places.take(n) =~= places.take(k).push(places[k]));
        }
        assert(filled(ids, order, places).to_multiset() =~= omitted(ids, order).to_multiset().add(
            places.take(n).to_multiset(),
        ));
    } else {
        assert(places.take(0) =~= Seq::<PaneId>::empty());
        Seq::<PaneId>::empty().to_multiset_ensures();
        assert(filled(ids, order, places) =~= Seq::<PaneId>::empty());
        assert(omitted(ids, order) =~= Seq::<PaneId>::empty());
        assert(filled(ids, order, places).to_multiset() =~= omitted(ids, order).to_multiset().add(
            places.take(n).to_multiset(),
        ));
    }
}

/// Arranging moves panes and does nothing else: the same ids stand in the
/// result, each once.
pub proof fn law_arranging_keeps_every_pane(ids: Seq<PaneId>, order: Seq<PaneId>)
    requires
        ids.no_duplicates(),
    ensures
        arranged(ids, order).len() == ids.len(),
        arranged(ids, order).no_duplicates(),
        forall|id: PaneId|
            #![trigger arranged(ids, order).contains(id)]
            arranged(ids, order).contains(id) <==> ids.contains(id),
        arranged(ids, order).to_multiset() == ids.to_multiset(),
        listed_count(ids, order) == known_once(ids, order).len(),
{
    let known = known_once(ids, order);
    lemma_known_once(ids, order);
    lemma_listed(ids, order);
    assert forall|id: PaneId| known.contains(id) <==> listed(ids, order).contains(id) by {}
    lemma_same_elements(known, listed(ids, order));
    lemma_filled(ids, order, known);
    assert(known.take(listed_count(ids, order) as int) =~= known);
    let out = arranged(ids, order);
    assert(out.to_multiset() =~= ids.to_multiset());
    ids.lemma_multiset_has_no_duplicates();
    assert forall|id: PaneId|
        #![trigger arranged(ids, order).contains(id)]
        out.contains(id) <==> ids.contains(id) by {
        to_multiset_contains(out, id);
        to_multiset_contains(ids, id);
    }
    out.lemma_multiset_has_no_duplicates_conv();
}

proof fn lemma_filled_places(ids: Seq<PaneId>, order: Seq<PaneId>, places: Seq<PaneId>, i: int)
    requires
        0 <= i < ids.len(),
        listed_count(ids, order) <= places.len(),
    ensures
        filled(ids, order, places).len() == ids.len(),
        filled(ids, order, places)[i] == if order.contains(ids[i]) {
            places[listed_count(ids.take(i), order) as int]
        } else {
            ids[i]
        },
        listed_count(ids.take(i), order) + if order.contains(ids[i]) {
            1int
        } else {
            0int
        } <= listed_count(ids, order),
    decreases ids.len(),
{
    let rest = ids.drop_last();
    lemma_filled(ids, order, places);
    lemma_filled(rest, order, places);
    if i == ids.len() - 1 {
        assert(ids.take(i) =~= rest);
    } else {
        lemma_filled_places(rest, order, places, i);
        assert(rest.take(i) =~= ids.take(i));
    }
}

/// Panes that an order omits keep their place.
pub proof fn law_omitted_panes_keep_their_place(ids: Seq<PaneId>, order: Seq<PaneId>, i: int)
    requires
        ids.no_duplicates(),
        0 <= i < ids.len(),
        !order.contains(ids[i]),
    ensures
        arranged(ids, order)[i] == ids[i],
{
    law_arranging_keeps_every_pane(ids, order);
    lemma_filled_places(ids, order, known_once(ids, order), i);
}

/// Whether `id` is among `ids`.
pub fn contains_id(ids: &[PaneId], id: PaneId) -> (r: bool)
    ensures
        r == ids@.contains(id),
{
    let mut i: usize = 0;
    while i < ids.len()
        invariant
            i <= ids@.len(),
            forall|k: int| 0 <= k < i ==> ids@[k] != id,
        decreases ids.len() - i,
    {
        if ids[i] == id {
            return true;
        }
        i += 1;
    }
    false
}

/// `ids` in the order that `order` asks for.
pub fn arrange(ids: &[PaneId], order: &[PaneId]) -> (r: Vec<PaneId>)
    requires
        ids@.no_duplicates(),
    ensures
        r@ == arranged(ids@, order@),
{
    let mut known: Vec<PaneId> = Vec::new();
    let mut i: usize = 0;
    proof {
        assert(order@.take(0) =~= Seq::<PaneId>::empty());
    }
    while i < order.len()
        invariant
            i <= order@.len(),
            known@ == known_once(ids@, order@.take(i as int)),
        decreases order.len() - i,
    {
        proof {
            assert(order@.take(i + 1).drop_last() =~= order@.take(i as int));
            assert(order@.take(i + 1).last() == order@[i as int]);
        }
        if contains_id(ids, order[i]) && !contains_id(known.as_slice(), order[i]) {
            known.push(order[i]);
        }
        i += 1;
    }
    proof {
        assert(order@.take(i as int) =~= order@);
        law_arranging_keeps_every_pane(ids@, order@);
        assert(ids@.take(0) =~= Seq::<PaneId>::empty());
    }
    let mut out: Vec<PaneId> = Vec::new();
    let mut next: usize = 0;
    let mut j: usize = 0;
    while j < ids.len()
        invariant
            j <= ids@.len(),
            known@ == known_once(ids@, order@),
            known@.len() == listed_count(ids@, order@),
            next == listed_count(ids@.take(j as int), order@),
            next <= known@.len(),
            out@ == filled(ids@.take(j as int), order@, known@),
        decreases ids.len() - j,
    {
        proof {
            assert(ids@.take(j + 1).drop_last() =~= ids@.take(j as int));
            assert(ids@.take(j + 1).last() == ids@[j as int]);
            lemma_filled_places(ids@, order@, known@, j as int);
        }
        if contains_id(order, ids[j]) {
            out.push(known[next]);
            assert(next < known.len());
            next += 1;
        } else {
            out.push(ids[j]);
        }
        j += 1;
    }
    proof {
        assert(ids@.take(j as int) =~= ids@);
    }
    out
}

/// Whether `a` stands in `order` before `b` does for the first time.
pub open spec fn comes_first(order: Seq<PaneId>, a: PaneId, b: PaneId) -> bool {
    exists|k: int|
        0 <= k < order.len() && #[trigger] order[k] == a && forall|l: int|
            0 <= l <= k ==> #[trigger] order[l] != b
}

proof fn lemma_known_in_order(ids: Seq<PaneId>, order: Seq<PaneId>, a: int, b: int)
    requires
        0 <= a < b < known_once(ids, order).len(),
    ensures
        comes_first(order, known_once(ids, order)[a], known_once(ids, order)[b]),
    decreases order.len(),
{
    let rest = order.drop_last();
    let before = known_once(ids, rest);
    let x = known_once(ids, order)[a];
    let y = known_once(ids, order)[b];
    lemma_known_once(ids, rest);
    if b < before.len() {
        lemma_known_in_order(ids, rest, a, b);
        let k = choose|k: int|
            0 <= k < rest.len() && #[trigger] rest[k] == x && forall|l: int|
                0 <= l <= k ==> #[trigger] rest[l] != y;
        assert(order[k] == x);
        assert forall|l: int| 0 <= l <= k implies #[trigger] order[l] != y by {
            assert(rest[l] != y);
        }
    } else {
        assert(b == before.len() && y == order.last() && x == before[a]);
        assert(before.contains(x));
        assert(rest.contains(x));
        let k = rest.index_of(x);
        assert(order[k] == x);
        assert(!before.contains(y) && ids.contains(y));
        assert(!rest.contains(y));
        assert forall|l: int| 0 <= l <= k implies #[trigger] order[l] != y by {
            assert(rest[l] == order[l]);
            assert(rest.contains(rest[l]));
        }
    }
}

proof fn lemma_count_grows(ids: Seq<PaneId>, order: Seq<PaneId>, i: int, j: int)
    requires
        0 <= i <= j <= ids.len(),
    ensures
        listed_count(ids.take(i), order) <= listed_count(ids.take(j), order),
        i < j && order.contains(ids[i]) ==> listed_count(ids.take(i), order) < listed_count(
            ids.take(j),
            order,
        ),
    decreases j - i,
{
    if i < j {
        lemma_count_grows(ids, order, i, j - 1);
        assert(ids.take(j).drop_last() =~= ids.take(j - 1));
        assert(ids.take(j).last() == ids[j - 1]);
        if i == j - 1 {
            assert(ids.take(i) =~= ids.take(j - 1));
        }
    }
}

/// The ids that an order names, as they are put, stand in the order's sequence.
pub proof fn law_arranging_follows_the_order(ids: Seq<PaneId>, order: Seq<PaneId>)
    requires
        ids.no_duplicates(),
    ensures
        arranged(ids, order).len() == ids.len(),
        forall|i: int, j: int|
            0 <= i < j < ids.len() && order.contains(arranged(ids, order)[i]) && order.contains(
                arranged(ids, order)[j],
            ) ==> #[trigger] comes_first(order, arranged(ids, order)[i], arranged(ids, order)[j]),
{
    let put = arranged(ids, order);
    let known = known_once(ids, order);
    lemma_known_once(ids, order);
    law_arranging_keeps_every_pane(ids, order);
    assert forall|i: int, j: int|
        0 <= i < j < ids.len() && order.contains(put[i]) && order.contains(put[j]) implies #[trigger] comes_first(
        order,
        put[i],
        put[j],
    ) by {
        lemma_filled_places(ids, order, known, i);
        lemma_filled_places(ids, order, known, j);
        assert(order.contains(ids[i]));
        assert(order.contains(ids[j]));
        lemma_count_grows(ids, order, i, j);
        lemma_count_grows(ids, order, j, ids.len() as int);
        assert(ids.take(ids.len() as int) =~= ids);
        lemma_known_in_order(
            ids,
            order,
            listed_count(ids.take(i), order) as int,
            listed_count(ids.take(j), order) as int,
        );
    }
}

} // verus!

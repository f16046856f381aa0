//! Sorting by an order that is proved to be one.

use vstd::prelude::*;
use vstd::seq_lib::to_multiset_insert;

verus! {

/// Whether `a` comes before `b` in the order of their code points.
pub open spec fn text_before(a: Seq<char>, b: Seq<char>) -> bool
    decreases a.len(),
{
    if b.len() == 0 {
        false
    } else if a.len() == 0 {
        true
    } else if a[0] != b[0] {
        (a[0] as int) < (b[0] as int)
    } else {
        text_before(a.skip(1), b.skip(1))
    }
}

pub proof fn lemma_text_before_irreflexive(a: Seq<char>)
    ensures
        !text_before(a, a),
    decreases a.len(),
{
    if a.len() > 0 {
        lemma_text_before_irreflexive(a.skip(1));
    }
}

pub proof fn lemma_text_before_total(a: Seq<char>, b: Seq<char>)
    ensures
        text_before(a, b) || text_before(b, a) || a == b,
        !(text_before(a, b) && text_before(b, a)),
    decreases a.len(),
{
    if a.len() > 0 && b.len() > 0 {
        if a[0] == b[0] {
            lemma_text_before_total(a.skip(1), b.skip(1));
            if a.skip(1) == b.skip(1) {
                assert(a =~= seq![a[0]] + a.skip(1));
                assert(b =~= seq![b[0]] + b.skip(1));
            }
        } else {
            assert(a[0] as int != b[0] as int);
        }
    } else if a.len() == 0 && b.len() == 0 {
        assert(a =~= b);
    }
}

pub proof fn lemma_text_before_transitive(a: Seq<char>, b: Seq<char>, c: Seq<char>)
    requires
        text_before(a, b),
        text_before(b, c),
    ensures
        text_before(a, c),
    decreases a.len(),
{
    if a.len() > 0 && b.len() > 0 && c.len() > 0 {
        if a[0] == b[0] && b[0] == c[0] {
            lemma_text_before_transitive(a.skip(1), b.skip(1), c.skip(1));
        }
    }
}

fn code_of(c: char) -> (r: u32)
    ensures
        r as int == c as int,
{
    c as u32
}

/// Whether `a` comes before `b` in the order of their code points.
pub fn comes_before(a: &str, b: &str) -> (r: bool)
    ensures
        r == text_before(a@, b@),
{
    let x = crate::text::chars_of(a);
    let y = crate::text::chars_of(b);
    let mut i: usize = 0;
    proof {
        assert(x@.skip(0) =~= x@);
        assert(y@.skip(0) =~= y@);
    }
    loop
        invariant
            x@ == a@,
            y@ == b@,
            i <= x@.len(),
            i <= y@.len(),
            text_before(a@, b@) == text_before(x@.skip(i as int), y@.skip(i as int)),
        decreases x.len() - i,
    {
        if i == y.len() {
            return false;
        }
        if i == x.len() {
            return true;
        }
        if x[i] != y[i] {
            return code_of(x[i]) < code_of(y[i]);
        }
        proof {
            assert(x@.skip(i as int).skip(1) =~= x@.skip(i + 1));
            assert(y@.skip(i as int).skip(1) =~= y@.skip(i + 1));
        }
        i += 1;
    }
}

/// What can be put in order.
pub trait Ranked: Sized {
    /// Whether `self` may stand before `other`.
    spec fn ranks(self, other: Self) -> bool;

    proof fn ranks_total(a: Self, b: Self)
        ensures
            a.ranks(b) || b.ranks(a),
    ;

    proof fn ranks_transitive(a: Self, b: Self, c: Self)
        requires
            a.ranks(b),
            b.ranks(c),
        ensures
            a.ranks(c),
    ;

    fn may_precede(&self, other: &Self) -> (r: bool)
        ensures
            r == self.ranks(*other),
    ;
}

/// Texts are put in order by their code points.
impl Ranked for String {
    open spec fn ranks(self, other: String) -> bool {
        !text_before(other@, self@)
    }

    proof fn ranks_total(a: String, b: String) {
        lemma_text_before_total(a@, b@);
    }

    proof fn ranks_transitive(a: String, b: String, c: String) {
        lemma_text_before_total(a@, b@);
        lemma_text_before_total(b@, c@);
        lemma_text_before_total(a@, c@);
        if text_before(a@, b@) && text_before(b@, c@) {
            lemma_text_before_transitive(a@, b@, c@);
        }
    }

    fn may_precede(&self, other: &String) -> (r: bool) {
        !comes_before(other.as_str(), self.as_str())
    }
}

/// Whether every item may stand before those that follow it.
pub open spec fn in_order<T: Ranked>(s: Seq<T>) -> bool {
    forall|i: int, j: int| 0 <= i < j < s.len() ==> (#[trigger] s[i]).ranks(#[trigger] s[j])
}

/// Put an item where it belongs among items in order; where that is.
pub fn place<T: Ranked>(items: &mut Vec<T>, item: T) -> (at: usize)
    requires
        in_order(old(items)@),
    ensures
        at <= old(items)@.len(),
        final(items)@ == old(items)@.insert(at as int, item),
        in_order(final(items)@),
{
    let ghost sorted = items@;
    let mut at: usize = 0;
    while at < items.len() && !item.may_precede(&items[at])
        invariant
            at <= items@.len(),
            items@ == sorted,
            in_order(items@),
            forall|k: int| 0 <= k < at ==> (#[trigger] items@[k]).ranks(item),
        decreases items.len() - at,
    {
        proof {
            T::ranks_total(items@[at as int], item);
        }
        at += 1;
    }
    proof {
        if at < items@.len() {
            assert forall|k: int| at <= k < items@.len() implies item.ranks(
                #[trigger] items@[k],
            ) by {
                if k > at {
                    T::ranks_transitive(item, items@[at as int], items@[k]);
                }
            }
        }
    }
    let ghost one = item;
    items.insert(at, item);
    proof {
        let now = items@;
        assert(now == sorted.insert(at as int, one));
        assert forall|i: int, j: int| 0 <= i < j < now.len() implies (#[trigger] now[i]).ranks(
            #[trigger] now[j],
        ) by {
            let x = if i < at {
                i
            } else {
                i - 1
            };
            let y = if j < at {
                j
            } else {
                j - 1
            };
            if i != at {
                assert(now[i] == sorted[x]);
            }
            if j != at {
                assert(now[j] == sorted[y]);
            }
        }
    }
    at
}

/// The same items, in order.
pub fn sort<T: Ranked>(items: Vec<T>) -> (r: Vec<T>)
    ensures
        in_order(r@),
        r@.to_multiset() == items@.to_multiset(),
        r@.len() == items@.len(),
{
    let mut left = items;
    let mut out: Vec<T> = Vec::new();
    let ghost all = left@;
    proof {
        all.to_multiset_ensures();
        out@.to_multiset_ensures();
        assert(left@.to_multiset().add(out@.to_multiset()) =~= all.to_multiset());
    }
    while left.len() > 0
        invariant
            in_order(out@),
            all == items@,
            left@.to_multiset().add(out@.to_multiset()) == all.to_multiset(),
            left@.len() + out@.len() == all.len(),
        decreases left.len(),
    {
        let ghost waiting = left@;
        let ghost sorted = out@;
        let n: usize = left.len();
        let item = left.remove(n - 1);
        let ghost one = item;
        let at: usize = place(&mut out, item);
        proof {
            to_multiset_insert(sorted, at as int, one);
            assert(waiting =~= waiting.remove(n - 1).push(one));
            vstd::seq_lib::to_multiset_build(waiting.remove(n - 1), one);
            assert(left@.to_multiset().add(out@.to_multiset()) =~= all.to_multiset());
        }
    }
    proof {
        left@.to_multiset_ensures();
        assert(left@ =~= Seq::<T>::empty());
        assert(out@.to_multiset() =~= all.to_multiset());
    }
    out
}

/// Whether `a` and `b` agree up to `k`, where `a` ends or has the smaller
/// character.
pub open spec fn differs_at(a: Seq<char>, b: Seq<char>, k: int) -> bool {
    &&& 0 <= k <= a.len() && k < b.len()
    &&& forall|i: int| 0 <= i < k ==> #[trigger] a[i] == b[i]
    &&& k == a.len() || (a[k] as int) < (b[k] as int)
}

/// One text comes before another where it is a proper beginning of it, or where
/// its character at the first difference is the smaller one.
pub proof fn law_texts_are_ordered_by_their_first_difference(a: Seq<char>, b: Seq<char>)
    ensures
        text_before(a, b) <==> exists|k: int| #[trigger] differs_at(a, b, k),
    decreases a.len(),
{
    if a.len() > 0 && b.len() > 0 && a[0] == b[0] {
        let x = a.skip(1);
        let y = b.skip(1);
        law_texts_are_ordered_by_their_first_difference(x, y);
        assert(forall|i: int| 0 < i < a.len() ==> #[trigger] a[i] == x[i - 1]);
        assert(forall|i: int| 0 < i < b.len() ==> #[trigger] b[i] == y[i - 1]);
        if text_before(x, y) {
            let k = choose|k: int| #[trigger] differs_at(x, y, k);
            assert(differs_at(a, b, k + 1));
        }
        if exists|k: int| #[trigger] differs_at(a, b, k) {
            let k = choose|k: int| #[trigger] differs_at(a, b, k);
            assert forall|i: int| 0 <= i < k - 1 implies #[trigger] x[i] == y[i] by {
                assert(a[i + 1] == b[i + 1]);
            }
            assert(differs_at(x, y, k - 1));
        }
    } else {
        if text_before(a, b) {
            assert(differs_at(a, b, 0));
        }
        if exists|k: int| #[trigger] differs_at(a, b, k) {
            let k = choose|k: int| #[trigger] differs_at(a, b, k);
            if k > 0 {
                assert(a[0] == b[0]);
            }
        }
    }
}

} // verus!

//! Maps and sets whose keys are texts, kept as plain lists.

use crate::sorting::{in_order, place, Ranked};
use crate::text::same_text;
use vstd::prelude::*;

verus! {

/// Where `key` first stands in a list of strings; its length if nowhere.
pub open spec fn first_at(keys: Seq<String>, key: Seq<char>) -> int
    decreases keys.len(),
{
    if keys.len() == 0 {
        0
    } else if keys[0]@ == key {
        0
    } else {
        1 + first_at(keys.skip(1), key)
    }
}

/// Whether `key` stands in a list of strings.
pub open spec fn has_text(keys: Seq<String>, key: Seq<char>) -> bool {
    exists|i: int| 0 <= i < keys.len() && (#[trigger] keys[i])@ == key
}

proof fn lemma_first_at(keys: Seq<String>, key: Seq<char>)
    ensures
        0 <= first_at(keys, key) <= keys.len(),
        first_at(keys, key) < keys.len() ==> keys[first_at(keys, key)]@ == key,
        has_text(keys, key) <==> first_at(keys, key) < keys.len(),
    decreases keys.len(),
{
    if keys.len() > 0 && keys[0]@ != key {
        lemma_first_at(keys.skip(1), key);
        if has_text(keys, key) {
            let i = choose|i: int| 0 <= i < keys.len() && (#[trigger] keys[i])@ == key;
            assert(keys.skip(1)[i - 1]@ == key);
        }
    }
}

/// A map from texts to values.
#[derive(Debug)]
pub struct TextMap<V> {
    pub keys: Vec<String>,
    pub values: Vec<V>,
}

impl<V> View for TextMap<V> {
    type V = Map<Seq<char>, V>;

    open spec fn view(&self) -> Map<Seq<char>, V> {
        Map::new(
            |key: Seq<char>| has_text(self.keys@, key),
            |key: Seq<char>| self.values@[first_at(self.keys@, key)],
        )
    }
}

impl<V> TextMap<V> {
    /// Every key stands once, beside its value.
    pub open spec fn wf(&self) -> bool {
        &&& self.keys@.len() == self.values@.len()
        &&& forall|i: int, j: int|
            0 <= i < self.keys@.len() && 0 <= j < self.keys@.len() && i != j ==> (
            #[trigger] self.keys@[i])@ != (#[trigger] self.keys@[j])@
    }

    pub proof fn lemma_at(&self, i: int)
        requires
            self.wf(),
            0 <= i < self.keys@.len(),
        ensures
            self@.contains_key(self.keys@[i]@),
            self@[self.keys@[i]@] == self.values@[i],
            first_at(self.keys@, self.keys@[i]@) == i,
    {
        lemma_first_at(self.keys@, self.keys@[i]@);
        let k = first_at(self.keys@, self.keys@[i]@);
        assert(has_text(self.keys@, self.keys@[i]@));
        assert(self.keys@[k]@ == self.keys@[i]@);
    }

    pub fn new() -> (r: TextMap<V>)
        ensures
            r.wf(),
            r@ == Map::<Seq<char>, V>::empty(),
    {
        let r = TextMap { keys: Vec::new(), values: Vec::new() };
        proof {
            assert(r@ =~= Map::<Seq<char>, V>::empty());
        }
        r
    }

    /// Where `key` stands.
    pub fn position(&self, key: &str) -> (r: Option<usize>)
        requires
            self.wf(),
        ensures
            match r {
                Some(i) => i < self.keys@.len() && self.keys@[i as int]@ == key@
                    && self@.contains_key(key@) && self@[key@] == self.values@[i as int],
                None => !self@.contains_key(key@),
            },
    {
        let mut i: usize = 0;
        while i < self.keys.len()
            invariant
                self.wf(),
                i <= self.keys@.len(),
                forall|k: int| 0 <= k < i ==> (#[trigger] self.keys@[k])@ != key@,
            decreases self.keys.len() - i,
        {
            if same_text(self.keys[i].as_str(), key) {
                proof {
                    self.lemma_at(i as int);
                }
                return Some(i);
            }
            i += 1;
        }
        None
    }

    pub fn contains_key(&self, key: &str) -> (r: bool)
        requires
            self.wf(),
        ensures
            r == self@.contains_key(key@),
    {
        self.position(key).is_some()
    }

    pub fn get(&self, key: &str) -> (r: Option<&V>)
        requires
            self.wf(),
        ensures
            match r {
                Some(v) => self@.contains_key(key@) && self@[key@] == *v,
                None => !self@.contains_key(key@),
            },
    {
        match self.position(key) {
            Some(i) => Some(&self.values[i]),
            None => None,
        }
    }

    /// Take the entry at `i` out.
    pub fn remove_at(&mut self, i: usize) -> (r: V)
        requires
            old(self).wf(),
            i < old(self).keys@.len(),
        ensures
            final(self).wf(),
            final(self)@ == old(self)@.remove(old(self).keys@[i as int]@),
            r == old(self).values@[i as int],
            final(self).keys@ == old(self).keys@.remove(i as int),
            final(self).values@ == old(self).values@.remove(i as int),
    {
        let ghost key = self.keys@[i as int]@;
        let ghost before = *self;
        self.keys.remove(i);
        let value = self.values.remove(i);
        proof {
            let now = *self;
            assert forall|a: int, b: int|
                0 <= a < now.keys@.len() && 0 <= b < now.keys@.len() && a != b implies (
            #[trigger] now.keys@[a])@ != (#[trigger] now.keys@[b])@ by {
                let x = if a < i {
                    a
                } else {
                    a + 1
                };
                let y = if b < i {
                    b
                } else {
                    b + 1
                };
                assert(now.keys@[a] == before.keys@[x]);
                assert(now.keys@[b] == before.keys@[y]);
            }
            assert(now.wf());
            assert forall|k: Seq<char>|
                now@.contains_key(k) <==> before@.remove(key).contains_key(k) by {
                if now@.contains_key(k) {
                    let a = choose|a: int|
                        0 <= a < now.keys@.len() && (#[trigger] now.keys@[a])@ == k;
                    let x = if a < i {
                        a
                    } else {
                        a + 1
                    };
                    assert(before.keys@[x]@ == k);
                }
                if before@.remove(key).contains_key(k) {
                    let x = choose|x: int|
                        0 <= x < before.keys@.len() && (#[trigger] before.keys@[x])@ == k;
                    let a = if x < i {
                        x
                    } else {
                        x - 1
                    };
                    assert(now.keys@[a]@ == k);
                }
            }
            assert forall|k: Seq<char>| now@.contains_key(k) implies now@[k]
                == before@.remove(key)[k] by {
                let a = choose|a: int|
                    0 <= a < now.keys@.len() && (#[trigger] now.keys@[a])@ == k;
                let x = if a < i {
                    a
                } else {
                    a + 1
                };
                now.lemma_at(a);
                before.lemma_at(x);
                assert(now.keys@[a] == before.keys@[x]);
                assert(now.values@[a] == before.values@[x]);
            }
            assert(now@ =~= before@.remove(key));
        }
        value
    }

    /// Take the value of `key` out.
    pub fn remove(&mut self, key: &str) -> (r: Option<V>)
        requires
            old(self).wf(),
        ensures
            final(self).wf(),
            final(self)@ == old(self)@.remove(key@),
            match r {
                Some(v) => old(self)@.contains_key(key@) && old(self)@[key@] == v,
                None => !old(self)@.contains_key(key@),
            },
    {
        match self.position(key) {
            None => {
                proof {
                    assert(self@ =~= old(self)@.remove(key@));
                }
                None
            },
            Some(i) => Some(self.remove_at(i)),
        }
    }

    fn push_new(&mut self, key: String, value: V)
        requires
            old(self).wf(),
            !old(self)@.contains_key(key@),
        ensures
            final(self).wf(),
            final(self)@ == old(self)@.insert(key@, value),
    {
        let ghost before = *self;
        let ghost text = key@;
        self.keys.push(key);
        self.values.push(value);
        proof {
            let now = *self;
            let n = before.keys@.len() as int;
            assert forall|a: int| 0 <= a < n implies (#[trigger] before.keys@[a])@ != text by {
                if before.keys@[a]@ == text {
                    assert(has_text(before.keys@, text));
                }
            }
            assert forall|a: int, b: int|
                0 <= a < now.keys@.len() && 0 <= b < now.keys@.len() && a != b implies (
            #[trigger] now.keys@[a])@ != (#[trigger] now.keys@[b])@ by {
                if a < n {
                    assert(now.keys@[a] == before.keys@[a]);
                }
                if b < n {
                    assert(now.keys@[b] == before.keys@[b]);
                }
            }
            assert(now.wf());
            assert forall|k: Seq<char>|
                now@.contains_key(k) <==> before@.insert(text, value).contains_key(k) by {
                if now@.contains_key(k) {
                    let a = choose|a: int|
                        0 <= a < now.keys@.len() && (#[trigger] now.keys@[a])@ == k;
                    if a < n {
                        assert(before.keys@[a]@ == k);
                    }
                }
                if before@.contains_key(k) {
                    let a = choose|a: int| 0 <= a < n && (#[trigger] before.keys@[a])@ == k;
                    assert(now.keys@[a]@ == k);
                }
                assert(now.keys@[n]@ == text);
            }
            assert forall|k: Seq<char>| now@.contains_key(k) implies now@[k] == before@.insert(
                text,
                value,
            )[k] by {
                let a = choose|a: int|
                    0 <= a < now.keys@.len() && (#[trigger] now.keys@[a])@ == k;
                now.lemma_at(a);
                if a < n {
                    before.lemma_at(a);
                    assert(before.keys@[a]@ == k);
                }
            }
            assert(now@ =~= before@.insert(text, value));
        }
    }

    /// Give `key` a value, in place of the one it had.
    pub fn insert(&mut self, key: String, value: V)
        requires
            old(self).wf(),
        ensures
            final(self).wf(),
            final(self)@ == old(self)@.insert(key@, value),
    {
        let ghost before = self@;
        self.remove(key.as_str());
        self.push_new(key, value);
        proof {
            assert(before.remove(key@).insert(key@, value) =~= before.insert(key@, value));
        }
    }

    pub fn clear(&mut self)
        ensures
            final(self).wf(),
            final(self)@ == Map::<Seq<char>, V>::empty(),
    {
        self.keys = Vec::new();
        self.values = Vec::new();
        proof {
            assert(self@ =~= Map::<Seq<char>, V>::empty());
        }
    }
}

/// A set of texts, in the order of their code points.
#[derive(Debug, PartialEq, Eq)]
pub struct TextSet {
    pub items: Vec<String>,
}

impl View for TextSet {
    type V = Set<Seq<char>>;

    open spec fn view(&self) -> Set<Seq<char>> {
        Set::new(|t: Seq<char>| has_text(self.items@, t))
    }
}

impl TextSet {
    /// Every text stands once, in its place.
    pub open spec fn wf(&self) -> bool {
        &&& in_order(self.items@)
        &&& forall|i: int, j: int|
            0 <= i < self.items@.len() && 0 <= j < self.items@.len() && i != j ==> (
            #[trigger] self.items@[i])@ != (#[trigger] self.items@[j])@
    }

    pub fn new() -> (r: TextSet)
        ensures
            r.wf(),
            r@ == Set::<Seq<char>>::empty(),
    {
        let r = TextSet { items: Vec::new() };
        proof {
            assert(r@ =~= Set::<Seq<char>>::empty());
        }
        r
    }

    pub fn contains(&self, text: &str) -> (r: bool)
        ensures
            r == self@.contains(text@),
    {
        contains_text(self.items.as_slice(), text)
    }

    /// Add `text`; whether it was new.
    pub fn insert(&mut self, text: String) -> (r: bool)
        requires
            old(self).wf(),
        ensures
            final(self).wf(),
            final(self)@ == old(self)@.insert(text@),
            r == !old(self)@.contains(text@),
    {
        if self.contains(text.as_str()) {
            proof {
                assert(self@ =~= old(self)@.insert(text@));
            }
            return false;
        }
        let ghost added = text@;
        let at: usize = place(&mut self.items, text);
        proof {
            let before = old(self).items@;
            let now = self.items@;
            assert forall|a: int| 0 <= a < before.len() implies (#[trigger] before[a])@ != added by {
                if before[a]@ == added {
                    assert(has_text(before, added));
                }
            }
            assert forall|a: int| 0 <= a < now.len() && a != at implies (#[trigger] now[a])
                == before[if a < at {
                a
            } else {
                a - 1
            }] by {}
            assert forall|t: Seq<char>| self@.contains(t) <==> old(self)@.insert(added).contains(t) by {
                if has_text(now, t) {
                    let a = choose|a: int| 0 <= a < now.len() && (#[trigger] now[a])@ == t;
                    if a != at {
                        assert(before[if a < at {
                            a
                        } else {
                            a - 1
                        }]@ == t);
                    }
                }
                if has_text(before, t) {
                    let a = choose|a: int| 0 <= a < before.len() && (#[trigger] before[a])@ == t;
                    assert(now[if a < at {
                        a
                    } else {
                        a + 1
                    }]@ == t);
                }
                assert(now[at as int]@ == added);
            }
            assert(self@ =~= old(self)@.insert(added));
        }
        true
    }

    /// Take `text` out; whether it was there.
    pub fn remove(&mut self, text: &str) -> (r: bool)
        requires
            old(self).wf(),
        ensures
            final(self).wf(),
            final(self)@ == old(self)@.remove(text@),
            r == old(self)@.contains(text@),
    {
        let ghost before = self.items@;
        let mut i: usize = 0;
        while i < self.items.len()
            invariant
                *self == *old(self),
                before == self.items@,
                self.wf(),
                i <= self.items@.len(),
                forall|k: int| 0 <= k < i ==> (#[trigger] self.items@[k])@ != text@,
            decreases self.items.len() - i,
        {
            if same_text(self.items[i].as_str(), text) {
                self.items.remove(i);
                proof {
                    let now = self.items@;
                    assert(before[i as int]@ == text@);
                    assert forall|a: int, b: int| 0 <= a < b < now.len() implies (
                    #[trigger] now[a]).ranks(#[trigger] now[b]) by {
                        let x = if a < i {
                            a
                        } else {
                            a + 1
                        };
                        let y = if b < i {
                            b
                        } else {
                            b + 1
                        };
                        assert(now[a] == before[x]);
                        assert(now[b] == before[y]);
                    }
                    assert forall|a: int, b: int|
                        0 <= a < now.len() && 0 <= b < now.len() && a != b implies (
                    #[trigger] now[a])@ != (#[trigger] now[b])@ by {
                        let x = if a < i {
                            a
                        } else {
                            a + 1
                        };
                        let y = if b < i {
                            b
                        } else {
                            b + 1
                        };
                        assert(now[a] == before[x]);
                        assert(now[b] == before[y]);
                    }
                    assert forall|t: Seq<char>|
                        self@.contains(t) <==> old(self)@.remove(text@).contains(t) by {
                        if has_text(now, t) {
                            let a = choose|a: int| 0 <= a < now.len() && (#[trigger] now[a])@ == t;
                            let x = if a < i {
                                a
                            } else {
                                a + 1
                            };
                            assert(before[x]@ == t);
                        }
                        if has_text(before, t) && t != text@ {
                            let x = choose|x: int|
                                0 <= x < before.len() && (#[trigger] before[x])@ == t;
                            let a = if x < i {
                                x
                            } else {
                                x - 1
                            };
                            assert(now[a]@ == t);
                        }
                    }
                    assert(self@ =~= old(self)@.remove(text@));
                }
                return true;
            }
            i += 1;
        }
        proof {
            assert(self@ =~= old(self)@.remove(text@));
        }
        false
    }
}

/// Whether `text` stands in a list of strings.
pub fn contains_text(items: &[String], text: &str) -> (r: bool)
    ensures
        r == has_text(items@, text@),
{
    let mut i: usize = 0;
    while i < items.len()
        invariant
            i <= items@.len(),
            forall|k: int| 0 <= k < i ==> (#[trigger] items@[k])@ != text@,
        decreases items.len() - i,
    {
        if same_text(items[i].as_str(), text) {
            return true;
        }
        i += 1;
    }
    false
}

} // verus!

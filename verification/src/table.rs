//! A string-keyed table: rows kept in a vector, found through a concurrent hash map.
use dashmap::DashMap;
use std::hash::RandomState;
use vstd::prelude::*;


verus! {

/// `dashmap::DashMap`, the hash map that a table finds its rows through.
#[verifier::external_type_specification]
#[verifier::external_body]
#[verifier::reject_recursive_types(K)]
#[verifier::reject_recursive_types(V)]
#[verifier::reject_recursive_types(S)]
pub struct ExDashMap<K, V, S>(DashMap<K, V, S>);

/// What a slot map holds: the slot of each key.
pub uninterp spec fn slots_of(m: DashMap<String, usize, RandomState>) -> Map<Seq<char>, usize>;

/// `DashMap::new`: a map that holds nothing.
#[verifier::external_body]
fn new_slots() -> (m: DashMap<String, usize, RandomState>)
    ensures
        slots_of(m).dom().is_empty(),
{
    DashMap::new()
}

/// `DashMap::insert`: the key now has the given slot; no other key changes.
#[verifier::external_body]
fn set_slot(m: &mut DashMap<String, usize, RandomState>, key: &str, slot: usize)
    ensures
        slots_of(*final(m)) == slots_of(*old(m)).insert(key@, slot),
{
    m.insert(key.to_owned(), slot);
}

/// `DashMap::get`: the slot of the key, if it has one.
#[verifier::external_body]
fn get_slot(m: &DashMap<String, usize, RandomState>, key: &str) -> (r: Option<usize>)
    ensures
        r == (if slots_of(*m).dom().contains(key@) {
            Some(slots_of(*m)[key@])
        } else {
            None
        }),
{
    m.get(key).map(|slot| *slot.value())
}

/// `DashMap::remove`: the key has no slot any more; no other key changes.
#[verifier::external_body]
fn remove_slot(m: &mut DashMap<String, usize, RandomState>, key: &str)
    ensures
        slots_of(*final(m)) == slots_of(*old(m)).remove(key@),
{
    m.remove(key);
}

/// A row of a table.
pub struct Row<V> {
    pub key: String,
    pub value: V,
}

/// A map from strings to values.
pub struct Table<V> {
    slots: DashMap<String, usize, RandomState>,
    rows: Vec<Row<V>>,
}

impl<V: DeepView> View for Table<V> {
    type V = Map<Seq<char>, V::V>;

    /// The value of each key.
    closed spec fn view(&self) -> Map<Seq<char>, V::V> {
        Map::new(
            |k: Seq<char>| slots_of(self.slots).dom().contains(k),
            |k: Seq<char>| self.rows@[slots_of(self.slots)[k] as int].value.deep_view(),
        )
    }
}

impl<V: DeepView> Table<V> {
    /// The slot map and the rows agree: each key's slot is the row that bears it, and each
    /// row's key has that row's slot.
    pub closed spec fn wf(&self) -> bool {
        &&& forall|k: Seq<char>| #[trigger]
            slots_of(self.slots).dom().contains(k) ==> {
                &&& slots_of(self.slots)[k] < self.rows@.len()
                &&& self.rows@[slots_of(self.slots)[k] as int].key@ == k
            }
        &&& forall|i: int|
            0 <= i < self.rows@.len() ==> {
                &&& slots_of(self.slots).dom().contains(#[trigger] self.rows@[i].key@)
                &&& slots_of(self.slots)[self.rows@[i].key@] == i
            }
    }

    /// The keys, in the order in which the rows stand.
    pub closed spec fn order(&self) -> Seq<Seq<char>> {
        Seq::new(self.rows@.len(), |i: int| self.rows@[i].key@)
    }

    /// The rows list every key once.
    pub proof fn lemma_order(&self)
        requires
            self.wf(),
        ensures
            self.order().no_duplicates(),
            forall|i: int|
                0 <= i < self.order().len() ==> self@.dom().contains(#[trigger] self.order()[i]),
            forall|k: Seq<char>| #[trigger] self@.dom().contains(k) ==> self.order().contains(k),
    {
        assert forall|i: int, j: int|
            0 <= i < self.order().len() && 0 <= j < self.order().len() && i != j implies
            self.order()[i] != self.order()[j] by {
            assert(slots_of(self.slots)[self.rows@[i].key@] == i);
            assert(slots_of(self.slots)[self.rows@[j].key@] == j);
        }
        assert forall|i: int| 0 <= i < self.order().len() implies self@.dom().contains(
            #[trigger] self.order()[i],
        ) by {
            assert(slots_of(self.slots).dom().contains(self.rows@[i].key@));
        }
        assert forall|k: Seq<char>| #[trigger] self@.dom().contains(k) implies self.order().contains(
            k,
        ) by {
            let i = slots_of(self.slots)[k] as int;
            assert(self.order()[i] == k);
        }
    }

    /// An empty table.
    pub fn new() -> (r: Table<V>)
        ensures
            r.wf(),
            r@ == Map::<Seq<char>, V::V>::empty(),
            r.order() == Seq::<Seq<char>>::empty(),
    {
        let r = Table { slots: new_slots(), rows: Vec::new() };
        assert(r@ =~= Map::<Seq<char>, V::V>::empty());
        assert(r.order() =~= Seq::<Seq<char>>::empty());
        r
    }

    /// How many keys the table has.
    pub fn len(&self) -> (r: usize)
        ensures
            r == self.order().len(),
    {
        self.rows.len()
    }

    /// The key of a row.
    pub fn key_at(&self, i: usize) -> (r: &str)
        requires
            self.wf(),
            i < self.order().len(),
        ensures
            r@ == self.order()[i as int],
            self@.dom().contains(r@),
    {
        self.rows[i].key.as_str()
    }

    /// The value of a row.
    pub fn value_at(&self, i: usize) -> (r: &V)
        requires
            self.wf(),
            i < self.order().len(),
        ensures
            self@.dom().contains(self.order()[i as int]),
            r.deep_view() == self@[self.order()[i as int]],
    {
        &self.rows[i].value
    }

    /// The value of a key.
    pub fn get(&self, key: &str) -> (r: Option<&V>)
        requires
            self.wf(),
        ensures
            match r {
                Some(v) => self@.dom().contains(key@) && v.deep_view() == self@[key@],
                None => !self@.dom().contains(key@),
            },
    {
        match get_slot(&self.slots, key) {
            Some(i) => Some(&self.rows[i].value),
            None => None,
        }
    }

    /// Whether the table has the key.
    pub fn contains_key(&self, key: &str) -> (r: bool)
        requires
            self.wf(),
        ensures
            r == self@.dom().contains(key@),
    {
        get_slot(&self.slots, key).is_some()
    }

    /// The row of a key.
    pub fn row_of(&self, key: &str) -> (r: Option<usize>)
        requires
            self.wf(),
        ensures
            match r {
                Some(i) => i < self.order().len() && self.order()[i as int] == key@
                    && self@.dom().contains(key@),
                None => !self@.dom().contains(key@),
            },
    {
        get_slot(&self.slots, key)
    }

    /// Puts `value` into a row and hands out the one that stood there.
    pub fn swap_value(&mut self, i: usize, value: V) -> (r: V)
        requires
            old(self).wf(),
            i < old(self).order().len(),
        ensures
            final(self).wf(),
            final(self)@ == old(self)@.insert(old(self).order()[i as int], value.deep_view()),
            final(self).order() == old(self).order(),
            old(self)@.dom().contains(old(self).order()[i as int]),
            r.deep_view() == old(self)@[old(self).order()[i as int]],
    {
        let mut tmp = value;
        std::mem::swap(&mut self.rows[i].value, &mut tmp);
        assert(self.order() =~= old(self).order());
        assert forall|k: int| 0 <= k < self.rows@.len() implies slots_of(self.slots).dom().contains(
            #[trigger] self.rows@[k].key@,
        ) && slots_of(self.slots)[self.rows@[k].key@] == k by {
            assert(self.rows@[k].key@ == old(self).rows@[k].key@);
        }
        assert(old(self)@.dom().contains(old(self).rows@[i as int].key@));
        assert(self@ =~= old(self)@.insert(old(self).order()[i as int], value.deep_view()));
        tmp
    }

    /// Gives `key` the value `value`, in place of the one it had.
    pub fn insert(&mut self, key: &str, value: V)
        requires
            old(self).wf(),
        ensures
            final(self).wf(),
            final(self)@ == old(self)@.insert(key@, value.deep_view()),
            final(self).order() == (if old(self)@.dom().contains(key@) {
                old(self).order()
            } else {
                old(self).order().push(key@)
            }),
    {
        match self.row_of(key) {
            Some(i) => {
                self.swap_value(i, value);
            },
            None => {
                let n: usize = self.rows.len();
                let ghost v = value;
                self.rows.push(Row { key: key.to_owned(), value });
                set_slot(&mut self.slots, key, n);
                proof {
                    assert forall|k: int| 0 <= k < self.rows@.len() implies slots_of(
                        self.slots,
                    ).dom().contains(#[trigger] self.rows@[k].key@) && slots_of(
                        self.slots,
                    )[self.rows@[k].key@] == k by {
                        if k < n {
                            assert(self.rows@[k] == old(self).rows@[k]);
                        }
                    }
                    assert(self@ =~= old(self)@.insert(key@, v.deep_view()));
                    assert(self.order() =~= old(self).order().push(key@));
                }
            },
        }
    }

    /// Takes `key` out of the table.
    pub fn remove(&mut self, key: &str) -> (r: Option<V>)
        requires
            old(self).wf(),
        ensures
            final(self).wf(),
            final(self)@ == old(self)@.remove(key@),
            match r {
                Some(v) => old(self)@.dom().contains(key@) && v.deep_view() == old(self)@[key@],
                None => !old(self)@.dom().contains(key@),
            },
    {
        match self.row_of(key) {
            None => {
                assert(self@ =~= old(self)@.remove(key@));
                None
            },
            Some(i) => {
                let row = self.rows.swap_remove(i);
                remove_slot(&mut self.slots, key);
                if i < self.rows.len() {
                    set_slot(&mut self.slots, self.rows[i].key.as_str(), i);
                }
                proof {
                    let last = old(self).rows@.len() - 1;
                    assert forall|k: int| 0 <= k < self.rows@.len() implies slots_of(
                        self.slots,
                    ).dom().contains(#[trigger] self.rows@[k].key@) && slots_of(
                        self.slots,
                    )[self.rows@[k].key@] == k by {
                        if k == i {
                            assert(self.rows@[k] == old(self).rows@[last]);
                        } else {
                            assert(self.rows@[k] == old(self).rows@[k]);
                            assert(slots_of(old(self).slots)[old(self).rows@[k].key@] == k);
                            assert(slots_of(old(self).slots)[old(self).rows@[last].key@] == last);
                            assert(slots_of(old(self).slots)[old(self).rows@[i as int].key@] == i);
                        }
                    }
                    assert forall|k: Seq<char>| #[trigger]
                        slots_of(self.slots).dom().contains(k) implies slots_of(self.slots)[k]
                        < self.rows@.len() && self.rows@[slots_of(self.slots)[k] as int].key@ == k by {
                        let j = slots_of(old(self).slots)[k] as int;
                        assert(slots_of(old(self).slots).dom().contains(k));
                        assert(old(self).rows@[j].key@ == k);
                        assert(slots_of(old(self).slots)[old(self).rows@[last].key@] == last);
                    }
                    assert forall|k: Seq<char>| old(self)@.remove(key@).dom().contains(
                        k,
                    ) implies #[trigger] self@.dom().contains(k) && self@[k] == old(self)@[k] by {
                        let j = slots_of(old(self).slots)[k] as int;
                        assert(slots_of(old(self).slots).dom().contains(k));
                        assert(old(self).rows@[j].key@ == k);
                        assert(slots_of(old(self).slots)[old(self).rows@[last].key@] == last);
                    }
                    assert(self@ =~= old(self)@.remove(key@));
                }
                Some(row.value)
            },
        }
    }

    /// Takes every key out of the table.
    pub fn clear(&mut self)
        requires
            old(self).wf(),
        ensures
            final(self).wf(),
            final(self)@ == Map::<Seq<char>, V::V>::empty(),
            final(self).order() == Seq::<Seq<char>>::empty(),
    {
        self.slots = new_slots();
        self.rows = Vec::new();
        assert(self@ =~= Map::<Seq<char>, V::V>::empty());
        assert(self.order() =~= Seq::<Seq<char>>::empty());
    }
}

/// The list at `key`; the empty list where the table lacks the key.
pub open spec fn list_at<T>(m: Map<Seq<char>, Seq<T>>, key: Seq<char>) -> Seq<T> {
    if m.dom().contains(key) {
        m[key]
    } else {
        Seq::empty()
    }
}

impl<T: DeepView> Table<Vec<T>> {
    /// Appends `items` to the list at `key`, which is made where the table lacks it.
    pub fn extend(&mut self, key: &str, items: Vec<T>)
        requires
            old(self).wf(),
        ensures
            final(self).wf(),
            final(self)@ == old(self)@.insert(
                key@,
                list_at(old(self)@, key@) + items.deep_view(),
            ),
    {
        let mut items = items;
        match self.row_of(key) {
            Some(i) => {
                let ghost added = items.deep_view();
                let mut list = self.swap_value(i, Vec::new());
                let ghost before = list.deep_view();
                list.append(&mut items);
                assert(list.deep_view() =~= before + added);
                self.swap_value(i, list);
                assert(self@ =~= old(self)@.insert(key@, before + added));
            },
            None => {
                assert(Seq::<T::V>::empty() + items.deep_view() =~= items.deep_view());
                self.insert(key, items);
            },
        }
    }

    /// Appends `item` to the list at `key`, which is made where the table lacks it.
    pub fn push(&mut self, key: &str, item: T)
        requires
            old(self).wf(),
        ensures
            final(self).wf(),
            final(self)@ == old(self)@.insert(
                key@,
                list_at(old(self)@, key@).push(item.deep_view()),
            ),
    {
        let mut items: Vec<T> = Vec::new();
        let ghost v = item.deep_view();
        items.push(item);
        assert(items.deep_view() =~= seq![v]);
        assert(list_at(self@, key@) + seq![v] =~= list_at(self@, key@).push(v));
        self.extend(key, items);
    }
}

} // verus!

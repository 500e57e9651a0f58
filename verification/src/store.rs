//! The collections of the engine: tables keyed by text, and sets of
//! identifiers. Both keep what came first in front.

use vstd::prelude::*;
use crate::text::{id_texts, same_text};

verus! {

/// In a list without duplicates, the place of an element is the one place
/// where it stands.
pub proof fn lemma_index_of_unique(keys: Seq<Seq<char>>, i: int)
    requires
        keys.no_duplicates(),
        0 <= i < keys.len(),
    ensures
        keys.contains(keys[i]),
        keys.index_of(keys[i]) == i,
{
    let key = keys[i];
    assert(keys.contains(key));
    let j = keys.index_of(key);
    assert(0 <= j < keys.len() && keys[j] == key);
}

/// A list without duplicates stays one when an absent key is added.
pub proof fn lemma_push_no_duplicates(keys: Seq<Seq<char>>, key: Seq<char>)
    requires
        keys.no_duplicates(),
        !keys.contains(key),
    ensures
        keys.push(key).no_duplicates(),
{
    let pushed = keys.push(key);
    assert forall|i: int, j: int|
        0 <= i < pushed.len() && 0 <= j < pushed.len() && i != j implies pushed[i]
        != pushed[j] by {
        if i < keys.len() && j < keys.len() {
            assert(keys[i] != keys[j]);
        } else if i < keys.len() {
            assert(keys.contains(keys[i]));
        } else if j < keys.len() {
            assert(keys.contains(keys[j]));
        }
    }
}

/// A list without duplicates stays one when an element is taken out, and
/// no longer holds that element.
pub proof fn lemma_remove_no_duplicates(keys: Seq<Seq<char>>, i: int)
    requires
        keys.no_duplicates(),
        0 <= i < keys.len(),
    ensures
        keys.remove(i).no_duplicates(),
        !keys.remove(i).contains(keys[i]),
        forall|key: Seq<char>| key != keys[i] ==> (keys.remove(i).contains(key) <==> keys.contains(key)),
{
    let removed = keys.remove(i);
    assert forall|a: int, b: int|
        0 <= a < removed.len() && 0 <= b < removed.len() && a != b implies removed[a]
        != removed[b] by {
        let a0 = if a < i { a } else { a + 1 };
        let b0 = if b < i { b } else { b + 1 };
        assert(removed[a] == keys[a0]);
        assert(removed[b] == keys[b0]);
    }
    if removed.contains(keys[i]) {
        let a = choose|a: int| 0 <= a < removed.len() && removed[a] == keys[i];
        let a0 = if a < i { a } else { a + 1 };
        assert(removed[a] == keys[a0]);
    }
    assert forall|key: Seq<char>| key != keys[i] implies (removed.contains(key) <==> keys.contains(
        key,
    )) by {
        if removed.contains(key) {
            let a = choose|a: int| 0 <= a < removed.len() && removed[a] == key;
            let a0 = if a < i { a } else { a + 1 };
            assert(keys[a0] == key);
        }
        if keys.contains(key) {
            let b = choose|b: int| 0 <= b < keys.len() && keys[b] == key;
            let b0 = if b < i { b } else { b - 1 };
            assert(removed[b0] == key);
        }
    }
}

/// Adding a key at the end leaves the place of every other key.
pub proof fn lemma_push_positions(keys: Seq<Seq<char>>, key: Seq<char>)
    requires
        keys.no_duplicates(),
        !keys.contains(key),
    ensures
        keys.push(key).contains(key),
        keys.push(key).index_of(key) == keys.len(),
        forall|k: Seq<char>| k != key ==> keys.push(key).contains(k) == keys.contains(k),
        forall|k: Seq<char>| #[trigger]
            keys.contains(k) ==> keys.push(key).index_of(k) == keys.index_of(k),
{
    let pushed = keys.push(key);
    lemma_push_no_duplicates(keys, key);
    assert(pushed[keys.len() as int] == key);
    lemma_index_of_unique(pushed, keys.len() as int);
    assert forall|k: Seq<char>| k != key implies pushed.contains(k) == keys.contains(k) by {
        if pushed.contains(k) {
            let i = choose|i: int| 0 <= i < pushed.len() && pushed[i] == k;
            assert(keys[i] == k);
        }
        if keys.contains(k) {
            let i = choose|i: int| 0 <= i < keys.len() && keys[i] == k;
            assert(pushed[i] == k);
        }
    }
    assert forall|k: Seq<char>| #[trigger] keys.contains(k) implies pushed.index_of(k)
        == keys.index_of(k) by {
        let i = keys.index_of(k);
        assert(0 <= i < keys.len() && keys[i] == k);
        assert(pushed[i] == k);
        lemma_index_of_unique(pushed, i);
    }
}

/// Taking a key out moves each later key one place ahead and leaves the
/// place of each earlier one.
pub proof fn lemma_remove_positions(keys: Seq<Seq<char>>, i: int)
    requires
        keys.no_duplicates(),
        0 <= i < keys.len(),
    ensures
        forall|k: Seq<char>| #[trigger]
            keys.contains(k) && k != keys[i] ==> keys.remove(i).contains(k) && keys.remove(
                i,
            ).index_of(k) == (if keys.index_of(k) < i {
                keys.index_of(k)
            } else {
                keys.index_of(k) - 1
            }),
{
    let removed = keys.remove(i);
    lemma_remove_no_duplicates(keys, i);
    assert forall|k: Seq<char>| #[trigger] keys.contains(k) && k != keys[i] implies removed.contains(
        k,
    ) && removed.index_of(k) == (if keys.index_of(k) < i {
        keys.index_of(k)
    } else {
        keys.index_of(k) - 1
    }) by {
        let j = keys.index_of(k);
        assert(0 <= j < keys.len() && keys[j] == k);
        let j2 = if j < i { j } else { j - 1 };
        assert(removed[j2] == k);
        lemma_index_of_unique(removed, j2);
    }
}

/// The list without `id`, if it holds it.
pub open spec fn strike(ids: Seq<Seq<char>>, id: Seq<char>) -> Seq<Seq<char>> {
    if ids.contains(id) {
        ids.remove(ids.index_of(id))
    } else {
        ids
    }
}

/// The list without each of `gone`, struck one after the other.
pub open spec fn strike_all(ids: Seq<Seq<char>>, gone: Seq<Seq<char>>) -> Seq<Seq<char>>
    decreases gone.len(),
{
    if gone.len() == 0 {
        ids
    } else {
        strike(strike_all(ids, gone.drop_last()), gone.last())
    }
}

/// Striking keeps a list free of duplicates, takes out what was struck
/// and keeps the rest.
pub proof fn lemma_strike(ids: Seq<Seq<char>>, id: Seq<char>)
    requires
        ids.no_duplicates(),
    ensures
        strike(ids, id).no_duplicates(),
        !strike(ids, id).contains(id),
        forall|k: Seq<char>| k != id ==> (strike(ids, id).contains(k) <==> ids.contains(k)),
{
    if ids.contains(id) {
        let i = ids.index_of(id);
        assert(0 <= i < ids.len() && ids[i] == id);
        lemma_remove_no_duplicates(ids, i);
    }
}

/// After all of `gone` are struck from a list without duplicates, the
/// list holds exactly what it held and was not struck.
pub proof fn lemma_strike_all(ids: Seq<Seq<char>>, gone: Seq<Seq<char>>)
    requires
        ids.no_duplicates(),
    ensures
        strike_all(ids, gone).no_duplicates(),
        forall|k: Seq<char>|
            #[trigger] strike_all(ids, gone).contains(k) <==> ids.contains(k) && !gone.contains(k),
    decreases gone.len(),
{
    if gone.len() > 0 {
        let rest = gone.drop_last();
        lemma_strike_all(ids, rest);
        lemma_strike(strike_all(ids, rest), gone.last());
        assert forall|k: Seq<char>| #[trigger]
            strike_all(ids, gone).contains(k) <==> ids.contains(k) && !gone.contains(k) by {
            assert(gone[gone.len() - 1] == gone.last());
            assert(strike_all(ids, rest).contains(k) <==> ids.contains(k) && !rest.contains(k));
            if gone.contains(k) {
                let j = choose|j: int| 0 <= j < gone.len() && gone[j] == k;
                if j < rest.len() {
                    assert(rest[j] == k);
                }
            }
            if rest.contains(k) {
                let j = choose|j: int| 0 <= j < rest.len() && rest[j] == k;
                assert(gone[j] == k);
            }
        }
    }
}

/// A table from keys of text to values. Each key stands once; a new key
/// goes to the end, a key that is written again keeps its place, and a
/// key that is taken out leaves the others in their order.
pub struct Table<V> {
    keys: Vec<String>,
    values: Vec<V>,
}

impl<V> Table<V> {
    /// The keys, in the order in which they came.
    pub closed spec fn keys(&self) -> Seq<Seq<char>> {
        id_texts(self.keys@)
    }

    /// The values, each at the place of its key.
    pub closed spec fn values(&self) -> Seq<V> {
        self.values@
    }

    /// Every key has its value, and no key stands twice.
    pub open spec fn wf(&self) -> bool {
        &&& self.keys().len() == self.values().len()
        &&& self.keys().no_duplicates()
    }

    /// Whether the table holds the key.
    pub open spec fn contains_key(&self, key: Seq<char>) -> bool {
        self.keys().contains(key)
    }

    /// The place of a key that the table holds.
    pub open spec fn position(&self, key: Seq<char>) -> int {
        self.keys().index_of(key)
    }

    /// The value of a key that the table holds.
    pub open spec fn value_of(&self, key: Seq<char>) -> V {
        self.values()[self.position(key)]
    }

    /// A table without keys.
    pub fn new() -> (table: Self)
        ensures
            table.wf(),
            table.keys() == Seq::<Seq<char>>::empty(),
            table.values() == Seq::<V>::empty(),
    {
        let table = Table { keys: Vec::new(), values: Vec::new() };
        assert(table.keys() =~= Seq::<Seq<char>>::empty());
        table
    }

    /// The number of keys.
    pub fn len(&self) -> (count: usize)
        requires
            self.wf(),
        ensures
            count == self.keys().len(),
            count == self.values().len(),
    {
        self.keys.len()
    }

    /// The place of `key`, if the table holds it.
    pub fn find(&self, key: &String) -> (place: Option<usize>)
        requires
            self.wf(),
        ensures
            match place {
                Some(i) => i < self.keys().len() && self.keys()[i as int] == key@
                    && self.contains_key(key@) && self.position(key@) == i,
                None => !self.contains_key(key@),
            },
    {
        let mut i: usize = 0;
        while i < self.keys.len()
            invariant
                self.wf(),
                i <= self.keys.len(),
                forall|k: int| 0 <= k < i ==> self.keys()[k] != key@,
            decreases self.keys.len() - i,
        {
            if same_text(&self.keys[i], key) {
                proof {
                    assert(self.keys()[i as int] == key@);
                    lemma_index_of_unique(self.keys(), i as int);
                }
                return Some(i);
            }
            i += 1;
        }
        None
    }

    /// The key at the place `i`.
    pub fn key_at(&self, i: usize) -> (key: &String)
        requires
            self.wf(),
            i < self.keys().len(),
        ensures
            key@ == self.keys()[i as int],
    {
        &self.keys[i]
    }

    /// The value at the place `i`.
    pub fn value_at(&self, i: usize) -> (value: &V)
        requires
            self.wf(),
            i < self.values().len(),
        ensures
            *value == self.values()[i as int],
    {
        &self.values[i]
    }

    /// The value of `key`, if the table holds it.
    pub fn get(&self, key: &String) -> (value: Option<&V>)
        requires
            self.wf(),
        ensures
            match value {
                Some(v) => self.contains_key(key@) && *v == self.value_of(key@),
                None => !self.contains_key(key@),
            },
    {
        match self.find(key) {
            Some(i) => Some(&self.values[i]),
            None => None,
        }
    }

    /// Writes `value` under `key`: in the place of the key's old value,
    /// or, for a new key, at the end.
    pub fn insert(&mut self, key: String, value: V)
        requires
            old(self).wf(),
        ensures
            final(self).wf(),
            final(self).contains_key(key@),
            final(self).value_of(key@) == value,
            old(self).contains_key(key@) ==> final(self).keys() == old(self).keys(),
            old(self).contains_key(key@) ==> final(self).values() == old(self).values().update(
                old(self).position(key@),
                value,
            ),
            !old(self).contains_key(key@) ==> final(self).keys() == old(self).keys().push(key@)
                && final(self).values() == old(self).values().push(value),
            forall|k: Seq<char>|
                k != key@ ==> final(self).contains_key(k) == old(self).contains_key(k),
            forall|k: Seq<char>|
                k != key@ && old(self).contains_key(k) ==> #[trigger] final(self).value_of(k)
                    == old(self).value_of(k),
    {
        match self.find(&key) {
            Some(i) => {
                self.values.push(value);
                let _ = self.values.swap_remove(i);
                proof {
                    assert(self.values@ =~= old(self).values@.update(i as int, value));
                    assert forall|k: Seq<char>| k != key@ && old(self).contains_key(k) implies (
                    #[trigger] self.value_of(k)) == old(self).value_of(k) by {
                        let j = self.keys().index_of(k);
                        assert(self.keys()[j] == k);
                    }
                }
            },
            None => {
                proof {
                    lemma_push_positions(self.keys(), key@);
                    lemma_push_no_duplicates(self.keys(), key@);
                    assert(id_texts(self.keys@.push(key)) =~= id_texts(self.keys@).push(key@));
                    lemma_index_of_unique(self.keys().push(key@), self.keys().len() as int);
                }
                self.keys.push(key);
                self.values.push(value);
            },
        }
    }

    /// Puts `value` in the place `i` and hands back what stood there.
    pub fn replace_at(&mut self, i: usize, value: V) -> (previous: V)
        requires
            old(self).wf(),
            i < old(self).values().len(),
        ensures
            final(self).wf(),
            final(self).keys() == old(self).keys(),
            final(self).values() == old(self).values().update(i as int, value),
            previous == old(self).values()[i as int],
            final(self).value_of(old(self).keys()[i as int]) == value,
            forall|k: Seq<char>|
                k != old(self).keys()[i as int] && old(self).contains_key(k)
                    ==> #[trigger] final(self).value_of(k) == old(self).value_of(k),
    {
        self.values.push(value);
        let previous = self.values.swap_remove(i);
        proof {
            assert(self.values@ =~= old(self).values@.update(i as int, value));
            lemma_index_of_unique(self.keys(), i as int);
            assert forall|k: Seq<char>|
                k != old(self).keys()[i as int] && old(self).contains_key(k) implies (
            #[trigger] self.value_of(k)) == old(self).value_of(k) by {
                let j = self.keys().index_of(k);
                assert(self.keys()[j] == k);
            }
        }
        previous
    }

    /// Takes `key` and its value out, the others keeping their order.
    pub fn remove(&mut self, key: &String) -> (taken: Option<V>)
        requires
            old(self).wf(),
        ensures
            final(self).wf(),
            !final(self).contains_key(key@),
            match taken {
                Some(value) => old(self).contains_key(key@) && value == old(self).value_of(key@)
                    && final(self).keys() == old(self).keys().remove(old(self).position(key@))
                    && final(self).values() == old(self).values().remove(
                    old(self).position(key@),
                ),
                None => !old(self).contains_key(key@) && final(self).keys() == old(self).keys()
                    && final(self).values() == old(self).values(),
            },
            forall|k: Seq<char>|
                k != key@ ==> final(self).contains_key(k) == old(self).contains_key(k),
            forall|k: Seq<char>|
                k != key@ && old(self).contains_key(k) ==> #[trigger] final(self).value_of(k)
                    == old(self).value_of(k),
    {
        match self.find(key) {
            Some(i) => {
                proof {
                    lemma_remove_positions(self.keys(), i as int);
                    lemma_remove_no_duplicates(self.keys(), i as int);
                    assert(id_texts(self.keys@.remove(i as int)) =~= id_texts(self.keys@).remove(
                        i as int,
                    ));
                }
                let _ = self.keys.remove(i);
                let value = self.values.remove(i);
                Some(value)
            },
            None => None,
        }
    }
}

/// A set of identifiers, in the order in which they came.
pub struct IdSet {
    ids: Vec<String>,
}

impl IdSet {
    /// The identifiers of the set, each once.
    pub closed spec fn ids(&self) -> Seq<Seq<char>> {
        id_texts(self.ids@)
    }

    /// No identifier stands twice.
    pub open spec fn wf(&self) -> bool {
        self.ids().no_duplicates()
    }

    /// Whether the set holds the identifier.
    pub open spec fn contains(&self, id: Seq<char>) -> bool {
        self.ids().contains(id)
    }

    /// A set without identifiers.
    pub fn new() -> (set: Self)
        ensures
            set.wf(),
            set.ids() == Seq::<Seq<char>>::empty(),
    {
        let set = IdSet { ids: Vec::new() };
        assert(set.ids() =~= Seq::<Seq<char>>::empty());
        set
    }

    /// The number of identifiers.
    pub fn len(&self) -> (count: usize)
        ensures
            count == self.ids().len(),
    {
        self.ids.len()
    }

    /// The identifier at the place `i`.
    pub fn id_at(&self, i: usize) -> (id: &String)
        requires
            i < self.ids().len(),
        ensures
            id@ == self.ids()[i as int],
    {
        &self.ids[i]
    }

    /// Copies of the identifiers, in their order.
    pub fn to_vec(&self) -> (list: Vec<String>)
        ensures
            id_texts(list@) == self.ids(),
    {
        let mut list: Vec<String> = Vec::new();
        let mut i: usize = 0;
        while i < self.ids.len()
            invariant
                i <= self.ids.len(),
                list@.len() == i,
                forall|k: int| 0 <= k < i ==> list@[k]@ == self.ids@[k]@,
            decreases self.ids.len() - i,
        {
            list.push(self.ids[i].clone());
            i += 1;
        }
        assert(id_texts(list@) =~= self.ids());
        list
    }

    /// The place of `id`, if the set holds it.
    pub fn find(&self, id: &String) -> (place: Option<usize>)
        ensures
            match place {
                Some(i) => i < self.ids().len() && self.ids()[i as int] == id@,
                None => !self.contains(id@),
            },
    {
        let mut i: usize = 0;
        while i < self.ids.len()
            invariant
                i <= self.ids.len(),
                forall|k: int| 0 <= k < i ==> self.ids()[k] != id@,
            decreases self.ids.len() - i,
        {
            if same_text(&self.ids[i], id) {
                assert(self.ids()[i as int] == id@);
                return Some(i);
            }
            i += 1;
        }
        None
    }

    /// Adds `id` at the end, unless the set holds it.
    pub fn insert(&mut self, id: String)
        requires
            old(self).wf(),
        ensures
            final(self).wf(),
            final(self).ids() == (if old(self).contains(id@) {
                old(self).ids()
            } else {
                old(self).ids().push(id@)
            }),
    {
        match self.find(&id) {
            Some(_) => {},
            None => {
                proof {
                    lemma_push_no_duplicates(self.ids(), id@);
                    assert(id_texts(self.ids@.push(id)) =~= id_texts(self.ids@).push(id@));
                }
                self.ids.push(id);
            },
        }
    }

    /// Takes `id` out, the others keeping their order.
    pub fn remove(&mut self, id: &String)
        requires
            old(self).wf(),
        ensures
            final(self).wf(),
            !final(self).contains(id@),
            final(self).ids() == (if old(self).contains(id@) {
                old(self).ids().remove(old(self).ids().index_of(id@))
            } else {
                old(self).ids()
            }),
    {
        match self.find(id) {
            Some(i) => {
                proof {
                    lemma_index_of_unique(self.ids(), i as int);
                    lemma_remove_no_duplicates(self.ids(), i as int);
                    assert(id_texts(self.ids@.remove(i as int)) =~= id_texts(self.ids@).remove(
                        i as int,
                    ));
                }
                let _ = self.ids.remove(i);
            },
            None => {},
        }
    }
}

/// What `OwnerIndex::add` makes of an index: the owner is entered and has
/// `id` after the identifiers that the owner had; nothing else changes.
pub open spec fn index_added(
    before: OwnerIndex,
    after: OwnerIndex,
    owner: Seq<char>,
    id: Seq<char>,
) -> bool {
    &&& after.has_owner(owner)
    &&& after.ids_of(owner) == (if before.ids_of(owner).contains(id) {
        before.ids_of(owner)
    } else {
        before.ids_of(owner).push(id)
    })
    &&& forall|other: Seq<char>|
        other != owner ==> after.has_owner(other) == before.has_owner(other)
    &&& forall|other: Seq<char>|
        other != owner ==> #[trigger] after.ids_of(other) == before.ids_of(other)
}

/// What `OwnerIndex::remove` makes of an index: the owner no longer has
/// `id`; nothing else changes.
pub open spec fn index_removed(
    before: OwnerIndex,
    after: OwnerIndex,
    owner: Seq<char>,
    id: Seq<char>,
) -> bool {
    &&& forall|other: Seq<char>| after.has_owner(other) == before.has_owner(other)
    &&& after.ids_of(owner) == (if before.ids_of(owner).contains(id) {
        before.ids_of(owner).remove(before.ids_of(owner).index_of(id))
    } else {
        before.ids_of(owner)
    })
    &&& !after.ids_of(owner).contains(id)
    &&& forall|other: Seq<char>|
        other != owner ==> #[trigger] after.ids_of(other) == before.ids_of(other)
}

/// For each owner the set of identifiers of what the owner holds. An
/// owner who was once entered stays, with an empty set if need be.
pub struct OwnerIndex {
    sets: Table<IdSet>,
}

impl OwnerIndex {
    /// Whether the owner was ever entered.
    pub closed spec fn has_owner(&self, owner: Seq<char>) -> bool {
        self.sets.contains_key(owner)
    }

    /// The identifiers entered for the owner, in the order in which they
    /// came; none for an owner who was never entered.
    pub closed spec fn ids_of(&self, owner: Seq<char>) -> Seq<Seq<char>> {
        if self.sets.contains_key(owner) {
            self.sets.value_of(owner).ids()
        } else {
            Seq::empty()
        }
    }

    /// No owner stands twice, and no owner has an identifier twice.
    pub closed spec fn wf(&self) -> bool {
        &&& self.sets.wf()
        &&& forall|p: int| 0 <= p < self.sets.values().len() ==> (#[trigger] self.sets.values()[p]).wf()
    }

    /// The owners that were entered, in the order in which they came.
    pub closed spec fn owners(&self) -> Seq<Seq<char>> {
        self.sets.keys()
    }

    /// The owners that were entered are those of the list of owners.
    pub proof fn lemma_owners(&self, owner: Seq<char>)
        ensures
            self.has_owner(owner) <==> self.owners().contains(owner),
    {
    }

    /// The list of owners names no owner twice.
    pub proof fn lemma_owners_distinct(&self)
        requires
            self.wf(),
        ensures
            self.owners().no_duplicates(),
    {
    }

    /// An owner who was never entered has no identifiers.
    pub proof fn lemma_unknown_owner(&self, owner: Seq<char>)
        requires
            !self.has_owner(owner),
        ensures
            self.ids_of(owner) == Seq::<Seq<char>>::empty(),
    {
    }

    /// No owner has an identifier twice.
    pub proof fn lemma_no_duplicates(&self, owner: Seq<char>)
        requires
            self.wf(),
        ensures
            self.ids_of(owner).no_duplicates(),
    {
        if self.sets.contains_key(owner) {
            let p = self.sets.position(owner);
            assert(self.sets.values()[p].wf());
        }
    }

    /// An index that knows no owner.
    pub fn new() -> (index: Self)
        ensures
            index.wf(),
            forall|owner: Seq<char>| !index.has_owner(owner),
            forall|owner: Seq<char>| #[trigger] index.ids_of(owner) == Seq::<Seq<char>>::empty(),
    {
        OwnerIndex { sets: Table::new() }
    }

    /// The set of the owner, if the owner was ever entered.
    pub fn get(&self, owner: &String) -> (set: Option<&IdSet>)
        requires
            self.wf(),
        ensures
            match set {
                Some(ids) => self.has_owner(owner@) && ids.ids() == self.ids_of(owner@)
                    && ids.wf(),
                None => !self.has_owner(owner@),
            },
    {
        match self.sets.find(owner) {
            Some(p) => {
                assert(self.sets.values()[p as int].wf());
                Some(self.sets.value_at(p))
            },
            None => None,
        }
    }

    /// Copies of the owners that were entered, in their order.
    pub fn owner_list(&self) -> (list: Vec<String>)
        requires
            self.wf(),
        ensures
            id_texts(list@) == self.owners(),
    {
        let mut list: Vec<String> = Vec::new();
        let mut i: usize = 0;
        while i < self.sets.len()
            invariant
                self.wf(),
                i <= self.sets.keys().len(),
                list@.len() == i,
                forall|k: int| 0 <= k < i ==> list@[k]@ == self.sets.keys()[k],
            decreases self.sets.keys().len() - i,
        {
            list.push(self.sets.key_at(i).clone());
            i += 1;
        }
        assert(id_texts(list@) =~= self.owners());
        list
    }

    /// Enters `owner`, with no identifiers, unless the owner is entered.
    pub fn enter(&mut self, owner: &String)
        requires
            old(self).wf(),
        ensures
            final(self).wf(),
            final(self).has_owner(owner@),
            forall|other: Seq<char>|
                other != owner@ ==> final(self).has_owner(other) == old(self).has_owner(other),
            forall|any: Seq<char>| #[trigger] final(self).ids_of(any) == old(self).ids_of(any),
    {
        let ghost before = self.sets;
        match self.sets.find(owner) {
            Some(_) => {},
            None => {
                self.sets.insert(owner.clone(), IdSet::new());
                proof {
                    let after = self.sets;
                    assert forall|q: int| 0 <= q < after.values().len() implies (
                    #[trigger] after.values()[q]).wf() by {
                        if q < before.values().len() {
                            assert(before.values()[q].wf());
                        }
                    }
                    assert forall|any: Seq<char>| #[trigger] self.ids_of(any) == old(self).ids_of(
                        any,
                    ) by {
                        if any != owner@ {
                            if before.contains_key(any) {
                                let q = before.position(any);
                                assert(before.keys()[q] == any);
                                assert(after.keys()[q] == any);
                                lemma_index_of_unique(after.keys(), q);
                            }
                        } else {
                            assert(self.ids_of(any) =~= Seq::<Seq<char>>::empty());
                        }
                    }
                }
            },
        }
    }

    /// Enters `id` for `owner`, after the identifiers that the owner has.
    pub fn add(&mut self, owner: &String, id: &String)
        requires
            old(self).wf(),
        ensures
            final(self).wf(),
            index_added(*old(self), *final(self), owner@, id@),
    {
        let ghost before = self.sets;
        match self.sets.find(owner) {
            Some(p) => {
                assert(self.sets.values()[p as int].wf());
                let mut set = self.sets.replace_at(p, IdSet::new());
                set.insert(id.clone());
                let _ = self.sets.replace_at(p, set);
                proof {
                    let after = self.sets;
                    assert(after.keys() == before.keys());
                    assert(after.values() =~= before.values().update(p as int, set));
                    assert forall|q: int| 0 <= q < after.values().len() implies (
                    #[trigger] after.values()[q]).wf() by {
                        if q != p {
                            assert(before.values()[q].wf());
                        }
                    }
                    assert forall|other: Seq<char>|
                        #![trigger self.has_owner(other)]
                        #![trigger self.ids_of(other)]
                        other != owner@ implies self.has_owner(other) == old(self).has_owner(other)
                        && self.ids_of(other) == old(self).ids_of(other) by {
                        if before.contains_key(other) {
                            let q = before.position(other);
                            assert(before.keys()[q] == other);
                        }
                    }
                }
            },
            None => {
                let mut set = IdSet::new();
                set.insert(id.clone());
                self.sets.insert(owner.clone(), set);
                proof {
                    let after = self.sets;
                    assert forall|q: int| 0 <= q < after.values().len() implies (
                    #[trigger] after.values()[q]).wf() by {
                        if q < before.values().len() {
                            assert(before.values()[q].wf());
                        }
                    }
                    assert forall|other: Seq<char>|
                        #![trigger self.has_owner(other)]
                        #![trigger self.ids_of(other)]
                        other != owner@ implies self.has_owner(other) == old(self).has_owner(other)
                        && self.ids_of(other) == old(self).ids_of(other) by {
                        if before.contains_key(other) {
                            let q = before.position(other);
                            assert(before.keys()[q] == other);
                            assert(after.keys()[q] == other);
                            lemma_index_of_unique(after.keys(), q);
                        } else if after.contains_key(other) {
                            let q = after.position(other);
                            assert(after.keys()[q] == other);
                            assert(q < before.keys().len());
                            assert(before.keys()[q] == other);
                        }
                    }
                    assert(old(self).ids_of(owner@) =~= Seq::<Seq<char>>::empty());
                    assert(self.ids_of(owner@) =~= Seq::<Seq<char>>::empty().push(id@));
                }
            },
        }
    }

    /// Strikes `id` from the identifiers of `owner`, if the owner has it.
    pub fn remove(&mut self, owner: &String, id: &String)
        requires
            old(self).wf(),
        ensures
            final(self).wf(),
            index_removed(*old(self), *final(self), owner@, id@),
    {
        let ghost before = self.sets;
        match self.sets.find(owner) {
            Some(p) => {
                assert(self.sets.values()[p as int].wf());
                let mut set = self.sets.replace_at(p, IdSet::new());
                set.remove(id);
                let _ = self.sets.replace_at(p, set);
                proof {
                    let after = self.sets;
                    assert(after.keys() == before.keys());
                    assert(after.values() =~= before.values().update(p as int, set));
                    assert forall|q: int| 0 <= q < after.values().len() implies (
                    #[trigger] after.values()[q]).wf() by {
                        if q != p {
                            assert(before.values()[q].wf());
                        }
                    }
                    assert forall|other: Seq<char>| other != owner@ implies #[trigger] self.ids_of(
                        other,
                    ) == old(self).ids_of(other) by {
                        if before.contains_key(other) {
                            let q = before.position(other);
                            assert(before.keys()[q] == other);
                        }
                    }
                }
            },
            None => {
                assert(!self.ids_of(owner@).contains(id@));
            },
        }
    }
}

} // verus!

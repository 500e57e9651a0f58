//! How a table of entities and the index of their owners hang together.

use vstd::prelude::*;
use vstd::string::*;
use crate::models::traits::Ownable;
use crate::store::{
    index_added, index_removed, lemma_index_of_unique, lemma_push_no_duplicates,
    lemma_remove_no_duplicates, strike, OwnerIndex, Table,
};
use crate::text::{decimal, entity_id, id_texts, same_text};

verus! {

/// The identifier and the owner of an entity.
pub struct Record {
    pub id: Seq<char>,
    pub owner: Seq<char>,
}

/// A kind, an owner and a stamp, joined by hyphens.
pub open spec fn stamped(kind: Seq<char>, owner: Seq<char>, stamp: Seq<char>) -> Seq<char> {
    kind + seq!['-'] + owner + seq!['-'] + stamp
}

/// What may end an identifier: a text that is not empty and holds no
/// hyphen.
pub open spec fn is_stamp(stamp: Seq<char>) -> bool {
    stamp.len() > 0 && !stamp.contains('-')
}

/// Whether `id` is an identifier of `kind` that names `owner`: the kind,
/// the owner and a stamp, joined by hyphens.
pub open spec fn made_for(kind: Seq<char>, id: Seq<char>, owner: Seq<char>) -> bool {
    exists|stamp: Seq<char>| is_stamp(stamp) && id == #[trigger] stamped(kind, owner, stamp)
}

/// Each entity stands under its own identifier, which was made for its
/// owner.
pub open spec fn well_keyed(kind: Seq<char>, keys: Seq<Seq<char>>, records: Seq<Record>) -> bool {
    &&& keys.len() == records.len()
    &&& keys.no_duplicates()
    &&& forall|i: int|
        0 <= i < keys.len() ==> (#[trigger] records[i]).id == keys[i] && made_for(
            kind,
            keys[i],
            records[i].owner,
        )
}

/// The index holds for each owner exactly the identifiers of the owner's
/// entities.
pub open spec fn index_sound(keys: Seq<Seq<char>>, records: Seq<Record>, index: OwnerIndex) -> bool {
    &&& forall|i: int|
        0 <= i < keys.len() ==> index.has_owner((#[trigger] records[i]).owner) && index.ids_of(
            records[i].owner,
        ).contains(keys[i])
    &&& forall|owner: Seq<char>, id: Seq<char>| #[trigger]
        index.ids_of(owner).contains(id) ==> keys.contains(id) && records[keys.index_of(id)].owner
            == owner
}

/// No decimal text holds a hyphen, and none is empty.
pub proof fn lemma_decimal_digits(n: nat)
    ensures
        decimal(n).len() > 0,
        forall|i: int| 0 <= i < decimal(n).len() ==> #[trigger] decimal(n)[i] != '-',
    decreases n,
{
    if n >= 10 {
        lemma_decimal_digits(n / 10);
    }
}

/// The identifier that an entity gets when it is made names its owner.
pub proof fn lemma_entity_id_made_for(kind: Seq<char>, owner: Seq<char>, now: u64)
    ensures
        made_for(kind, entity_id(kind, owner, now), owner),
{
    lemma_decimal_digits(now as nat);
    let stamp = decimal(now as nat);
    if stamp.contains('-') {
        let i = choose|i: int| 0 <= i < stamp.len() && stamp[i] == '-';
        assert(decimal(now as nat)[i] != '-');
    }
    assert(entity_id(kind, owner, now) == stamped(kind, owner, stamp));
}

/// An identifier names one owner only: two identifiers of one kind that
/// are the same name the same owner.
pub proof fn lemma_stamped_names_owner(
    kind: Seq<char>,
    owner1: Seq<char>,
    stamp1: Seq<char>,
    owner2: Seq<char>,
    stamp2: Seq<char>,
)
    requires
        is_stamp(stamp1),
        is_stamp(stamp2),
        stamped(kind, owner1, stamp1) == stamped(kind, owner2, stamp2),
    ensures
        owner1 == owner2,
{
    let s1 = stamped(kind, owner1, stamp1);
    let s2 = stamped(kind, owner2, stamp2);
    let start = kind.len() + 1;
    assert(s1.len() == start + owner1.len() + 1 + stamp1.len());
    assert(s2.len() == start + owner2.len() + 1 + stamp2.len());
    if stamp1.len() < stamp2.len() {
        let q = s1.len() - stamp1.len() - 1;
        assert(s1[q] == '-');
        let at = q - (s2.len() - stamp2.len());
        assert(s2[q] == stamp2[at]);
        assert(stamp2.contains(stamp2[at]));
    } else if stamp2.len() < stamp1.len() {
        let q = s2.len() - stamp2.len() - 1;
        assert(s2[q] == '-');
        let at = q - (s1.len() - stamp1.len());
        assert(s1[q] == stamp1[at]);
        assert(stamp1.contains(stamp1[at]));
    } else {
        assert(owner1.len() == owner2.len());
        assert forall|k: int| 0 <= k < owner1.len() implies owner1[k] == owner2[k] by {
            assert(s1[start + k] == owner1[k]);
            assert(s2[start + k] == owner2[k]);
        }
        assert(owner1 =~= owner2);
    }
}

/// Two owners whom one identifier names are the same.
pub proof fn lemma_made_for_one_owner(
    kind: Seq<char>,
    id: Seq<char>,
    owner1: Seq<char>,
    owner2: Seq<char>,
)
    requires
        made_for(kind, id, owner1),
        made_for(kind, id, owner2),
    ensures
        owner1 == owner2,
{
    let stamp1 = choose|stamp: Seq<char>|
        is_stamp(stamp) && id == #[trigger] stamped(kind, owner1, stamp);
    let stamp2 = choose|stamp: Seq<char>|
        is_stamp(stamp) && id == #[trigger] stamped(kind, owner2, stamp);
    lemma_stamped_names_owner(kind, owner1, stamp1, owner2, stamp2);
}

/// Whether `id` is an identifier of `kind` that names `owner`.
pub fn id_names_owner(kind: &str, id: &String, owner: &String) -> (named: bool)
    ensures
        named == made_for(kind@, id@, owner@),
{
    proof {
        reveal_strlit("-");
        assert("-"@ =~= seq!['-']);
    }
    let mut prefix = kind.to_owned();
    prefix.append("-");
    prefix.append(owner.as_str());
    prefix.append("-");
    let total = id.as_str().unicode_len();
    let start = prefix.as_str().unicode_len();
    proof {
        assert forall|stamp: Seq<char>| #[trigger] stamped(kind@, owner@, stamp) == prefix@ + stamp by {
            assert(stamped(kind@, owner@, stamp) =~= prefix@ + stamp);
        }
    }
    if total <= start {
        proof {
            if made_for(kind@, id@, owner@) {
                let stamp = choose|stamp: Seq<char>|
                    is_stamp(stamp) && id@ == #[trigger] stamped(kind@, owner@, stamp);
                assert(id@.len() == prefix@.len() + stamp.len());
            }
        }
        return false;
    }
    let head = id.as_str().substring_char(0, start).to_owned();
    let tail = id.as_str().substring_char(start, total);
    if !same_text(&head, &prefix) {
        proof {
            if made_for(kind@, id@, owner@) {
                let stamp = choose|stamp: Seq<char>|
                    is_stamp(stamp) && id@ == #[trigger] stamped(kind@, owner@, stamp);
                assert(id@.subrange(0, start as int) =~= prefix@);
            }
        }
        return false;
    }
    let mut hyphen = false;
    for c in it: tail.chars()
        invariant
            it.seq() == tail@,
            hyphen == exists|j: int| 0 <= j < it.index() && tail@[j] == '-',
    {
        if c == '-' {
            hyphen = true;
        }
    }
    proof {
        assert(id@ =~= prefix@ + tail@);
        if !hyphen {
            assert(is_stamp(tail@));
            assert(id@ == stamped(kind@, owner@, tail@));
        } else if made_for(kind@, id@, owner@) {
            let stamp = choose|stamp: Seq<char>|
                is_stamp(stamp) && id@ == #[trigger] stamped(kind@, owner@, stamp);
            assert(stamp =~= tail@);
            let j = choose|j: int| 0 <= j < tail@.len() && tail@[j] == '-';
            assert(stamp[j] == '-');
        }
    }
    !hyphen
}

/// Entering a new entity in the table and its identifier in the index of
/// its owner keeps the index sound.
pub proof fn lemma_sound_after_push(
    keys: Seq<Seq<char>>,
    records: Seq<Record>,
    index: OwnerIndex,
    record: Record,
    after: OwnerIndex,
)
    requires
        keys.len() == records.len(),
        keys.no_duplicates(),
        index_sound(keys, records, index),
        !keys.contains(record.id),
        after.has_owner(record.owner),
        after.ids_of(record.owner) == (if index.ids_of(record.owner).contains(record.id) {
            index.ids_of(record.owner)
        } else {
            index.ids_of(record.owner).push(record.id)
        }),
        forall|other: Seq<char>|
            other != record.owner ==> after.has_owner(other) == index.has_owner(other),
        forall|other: Seq<char>|
            other != record.owner ==> #[trigger] after.ids_of(other) == index.ids_of(other),
    ensures
        index_sound(keys.push(record.id), records.push(record), after),
{
    let keys2 = keys.push(record.id);
    let records2 = records.push(record);
    lemma_push_no_duplicates(keys, record.id);
    assert(!index.ids_of(record.owner).contains(record.id));
    let mine = index.ids_of(record.owner);
    assert(mine.push(record.id)[mine.len() as int] == record.id);
    assert forall|i: int| 0 <= i < keys2.len() implies after.has_owner(
        (#[trigger] records2[i]).owner,
    ) && after.ids_of(records2[i].owner).contains(keys2[i]) by {
        if i < keys.len() {
            assert(records2[i] == records[i]);
            assert(index.ids_of(records[i].owner).contains(keys[i]));
            if records[i].owner == record.owner {
                let k = choose|k: int| 0 <= k < mine.len() && mine[k] == keys[i];
                assert(mine.push(record.id)[k] == keys[i]);
            }
        }
    }
    assert forall|owner: Seq<char>, id: Seq<char>| #[trigger]
        after.ids_of(owner).contains(id) implies keys2.contains(id) && records2[keys2.index_of(
        id,
    )].owner == owner by {
        if owner == record.owner && id == record.id {
            assert(keys2[keys.len() as int] == id);
            lemma_index_of_unique(keys2, keys.len() as int);
        } else {
            if owner == record.owner {
                let k = choose|k: int|
                    0 <= k < mine.push(record.id).len() && mine.push(record.id)[k] == id;
                assert(k < mine.len());
                assert(mine[k] == id);
            }
            assert(index.ids_of(owner).contains(id));
            let j = keys.index_of(id);
            assert(keys.contains(id));
            assert(keys2[j] == id);
            lemma_index_of_unique(keys2, j);
        }
    }
}

/// Taking an entity out of the table and its identifier out of the index
/// of its owner keeps the index sound.
pub proof fn lemma_sound_after_remove(
    keys: Seq<Seq<char>>,
    records: Seq<Record>,
    index: OwnerIndex,
    place: int,
    after: OwnerIndex,
)
    requires
        keys.len() == records.len(),
        keys.no_duplicates(),
        index.wf(),
        index_sound(keys, records, index),
        0 <= place < keys.len(),
        forall|other: Seq<char>| after.has_owner(other) == index.has_owner(other),
        after.ids_of(records[place].owner) == index.ids_of(records[place].owner).remove(
            index.ids_of(records[place].owner).index_of(keys[place]),
        ),
        forall|other: Seq<char>|
            other != records[place].owner ==> #[trigger] after.ids_of(other) == index.ids_of(other),
    ensures
        index_sound(keys.remove(place), records.remove(place), after),
{
    let keys2 = keys.remove(place);
    let records2 = records.remove(place);
    let owner0 = records[place].owner;
    let id0 = keys[place];
    let mine = index.ids_of(owner0);
    index.lemma_no_duplicates(owner0);
    assert(mine.contains(id0));
    let spot = mine.index_of(id0);
    lemma_remove_no_duplicates(mine, spot);
    lemma_remove_no_duplicates(keys, place);
    lemma_index_of_unique(keys, place);
    assert forall|i: int| 0 <= i < keys2.len() implies after.has_owner(
        (#[trigger] records2[i]).owner,
    ) && after.ids_of(records2[i].owner).contains(keys2[i]) by {
        let i0 = if i < place { i } else { i + 1 };
        assert(records2[i] == records[i0]);
        assert(keys2[i] == keys[i0]);
        assert(index.ids_of(records[i0].owner).contains(keys[i0]));
        assert(keys[i0] != id0);
    }
    assert forall|owner: Seq<char>, id: Seq<char>| #[trigger]
        after.ids_of(owner).contains(id) implies keys2.contains(id) && records2[keys2.index_of(
        id,
    )].owner == owner by {
        if owner == owner0 {
            assert(id != id0);
            assert(mine.contains(id));
        }
        assert(index.ids_of(owner).contains(id));
        let j = keys.index_of(id);
        assert(keys.contains(id) && records[j].owner == owner);
        assert(0 <= j < keys.len() && keys[j] == id);
        assert(j != place);
        let j2 = if j < place { j } else { j - 1 };
        assert(keys2[j2] == id);
        lemma_index_of_unique(keys2, j2);
        assert(records2[j2] == records[j]);
    }
}

/// An owned entity with an identifier of its kind.
pub trait Entity: Ownable + View {
    /// The word with which the identifiers of the kind begin.
    spec fn kind() -> Seq<char>;

    /// The entity's identifier.
    spec fn key(&self) -> Seq<char>;

    fn get_id(&self) -> (id: &String)
        ensures
            id@ == self.key(),
    ;

    /// The word with which the identifiers of the kind begin.
    fn kind_name() -> (name: &'static str)
        ensures
            name@ == Self::kind(),
    ;
}

/// The identifiers and owners of a list of entities.
pub open spec fn records<T: Entity>(values: Seq<T>) -> Seq<Record> {
    Seq::new(values.len(), |i: int| Record { id: values[i].key(), owner: values[i].owner() })
}

/// The identifiers of a list of records.
pub open spec fn record_ids(entries: Seq<Record>) -> Seq<Seq<char>> {
    Seq::new(entries.len(), |i: int| entries[i].id)
}

/// The identifiers of the records of `owner`, in the order of the records.
pub open spec fn ids_owned(entries: Seq<Record>, owner: Seq<char>) -> Seq<Seq<char>>
    decreases entries.len(),
{
    if entries.len() == 0 {
        Seq::empty()
    } else {
        let earlier = ids_owned(entries.drop_last(), owner);
        if entries.last().owner == owner {
            earlier.push(entries.last().id)
        } else {
            earlier
        }
    }
}

/// Whether some record is of `owner`.
pub open spec fn owns_any(entries: Seq<Record>, owner: Seq<char>) -> bool {
    exists|i: int| 0 <= i < entries.len() && (#[trigger] entries[i]).owner == owner
}

/// Whether a record of `owner` has the identifier `id`.
pub open spec fn owns(entries: Seq<Record>, owner: Seq<char>, id: Seq<char>) -> bool {
    exists|i: int|
        0 <= i < entries.len() && (#[trigger] entries[i]).id == id && entries[i].owner == owner
}

/// The index lists for each owner the identifiers of the owner's
/// entities in the order of the table.
pub open spec fn index_ordered(records: Seq<Record>, index: OwnerIndex) -> bool {
    forall|owner: Seq<char>| #[trigger] index.ids_of(owner) == ids_owned(records, owner)
}

/// The identifiers of an owner are those of the owner's records, and
/// none stands twice where no record's identifier does.
pub proof fn lemma_ids_owned_members(entries: Seq<Record>, owner: Seq<char>)
    ensures
        forall|id: Seq<char>| #[trigger]
            ids_owned(entries, owner).contains(id) <==> owns(entries, owner, id),
        record_ids(entries).no_duplicates() ==> ids_owned(entries, owner).no_duplicates(),
    decreases entries.len(),
{
    if entries.len() > 0 {
        let rest = entries.drop_last();
        let last = entries.last();
        let earlier = ids_owned(rest, owner);
        lemma_ids_owned_members(rest, owner);
        assert forall|id: Seq<char>| #[trigger]
            ids_owned(entries, owner).contains(id) <==> owns(entries, owner, id) by {
            if owns(rest, owner, id) {
                let i = choose|i: int|
                    0 <= i < rest.len() && (#[trigger] rest[i]).id == id && rest[i].owner == owner;
                assert(entries[i] == rest[i]);
            }
            if owns(entries, owner, id) {
                let i = choose|i: int|
                    0 <= i < entries.len() && (#[trigger] entries[i]).id == id && entries[i].owner
                        == owner;
                if i < rest.len() {
                    assert(rest[i] == entries[i]);
                }
            }
            if last.owner == owner {
                let longer = earlier.push(last.id);
                assert(longer[earlier.len() as int] == last.id);
                assert(entries[entries.len() - 1] == last);
                if longer.contains(id) {
                    let k = choose|k: int| 0 <= k < longer.len() && longer[k] == id;
                    if k < earlier.len() {
                        assert(earlier[k] == id);
                    }
                }
                if earlier.contains(id) {
                    let k = choose|k: int| 0 <= k < earlier.len() && earlier[k] == id;
                    assert(longer[k] == id);
                }
            }
        }
        if record_ids(entries).no_duplicates() {
            assert forall|i: int, j: int|
                0 <= i < rest.len() && 0 <= j < rest.len() && i != j implies record_ids(rest)[i]
                != record_ids(rest)[j] by {
                assert(record_ids(entries)[i] == rest[i].id);
                assert(record_ids(entries)[j] == rest[j].id);
            }
            if last.owner == owner {
                if earlier.contains(last.id) {
                    assert(owns(rest, owner, last.id));
                    let i = choose|i: int|
                        0 <= i < rest.len() && (#[trigger] rest[i]).id == last.id && rest[i].owner
                            == owner;
                    assert(record_ids(entries)[i] == last.id);
                    assert(record_ids(entries)[entries.len() - 1] == last.id);
                }
                lemma_push_no_duplicates(earlier, last.id);
            }
        }
    }
}

/// Taking a record out strikes its identifier from the identifiers of
/// its owner and leaves those of every other owner.
pub proof fn lemma_ids_owned_remove(entries: Seq<Record>, place: int, owner: Seq<char>)
    requires
        record_ids(entries).no_duplicates(),
        0 <= place < entries.len(),
    ensures
        ids_owned(entries.remove(place), owner) == (if entries[place].owner == owner {
            strike(ids_owned(entries, owner), entries[place].id)
        } else {
            ids_owned(entries, owner)
        }),
    decreases entries.len(),
{
    let rest = entries.drop_last();
    let last = entries.last();
    let gone = entries[place];
    lemma_ids_owned_members(entries, owner);
    lemma_ids_owned_members(rest, owner);
    assert forall|i: int, j: int|
        0 <= i < rest.len() && 0 <= j < rest.len() && i != j implies record_ids(rest)[i]
        != record_ids(rest)[j] by {
        assert(record_ids(entries)[i] == rest[i].id);
        assert(record_ids(entries)[j] == rest[j].id);
    }
    if place == entries.len() - 1 {
        assert(entries.remove(place) =~= rest);
        if last.owner == owner {
            let earlier = ids_owned(rest, owner);
            let longer = earlier.push(last.id);
            assert(longer[earlier.len() as int] == last.id);
            assert(longer.contains(last.id));
            lemma_index_of_unique(longer, earlier.len() as int);
            assert(longer.remove(earlier.len() as int) =~= earlier);
        }
    } else {
        let shorter = rest.remove(place);
        assert(entries.remove(place) =~= shorter.push(last));
        assert(entries.remove(place).drop_last() =~= shorter);
        assert(entries.remove(place).last() == last);
        assert(rest[place] == gone);
        lemma_ids_owned_remove(rest, place, owner);
        if gone.owner == owner && last.owner == owner {
            let earlier = ids_owned(rest, owner);
            let longer = earlier.push(last.id);
            assert(owns(rest, owner, gone.id));
            assert(earlier.contains(gone.id));
            let at = earlier.index_of(gone.id);
            assert(0 <= at < earlier.len() && earlier[at] == gone.id);
            assert(longer[at] == gone.id);
            assert(longer.contains(gone.id));
            lemma_index_of_unique(longer, at);
            assert(longer.remove(at) =~= earlier.remove(at).push(last.id));
        }
    }
}

/// A table of entities and the index of their owners that belong
/// together: each entity stands under its identifier, which names its
/// owner, and the index holds for each owner exactly the identifiers of
/// the owner's entities, in the order of the table.
pub open spec fn registry_wf<T: Entity>(table: Table<T>, index: OwnerIndex) -> bool {
    &&& table.wf()
    &&& index.wf()
    &&& well_keyed(T::kind(), table.keys(), records(table.values()))
    &&& index_sound(table.keys(), records(table.values()), index)
    &&& index_ordered(records(table.values()), index)
}

/// The entity under `key`, as a mathematical value.
pub open spec fn view_of<T: Entity>(table: Table<T>, key: Seq<char>) -> T::V {
    table.value_of(key)@
}

/// What writing `value` under `key` makes of a table: the key stands
/// where it stood, or else at the end, with the value, and every other
/// key has what it had.
pub open spec fn table_set<T: Entity>(
    before: Table<T>,
    after: Table<T>,
    key: Seq<char>,
    value: T::V,
) -> bool {
    &&& after.keys() == (if before.contains_key(key) {
        before.keys()
    } else {
        before.keys().push(key)
    })
    &&& view_of(after, key) == value
    &&& forall|k: Seq<char>| after.contains_key(k) <==> before.contains_key(k) || k == key
    &&& forall|k: Seq<char>|
        k != key && before.contains_key(k) ==> #[trigger] view_of(after, k) == view_of(before, k)
}

/// What taking `key` out makes of a table that holds it: the other keys
/// keep their order and have what they had.
pub open spec fn table_unset<T: Entity>(before: Table<T>, after: Table<T>, key: Seq<char>) -> bool {
    &&& after.keys() == before.keys().remove(before.position(key))
    &&& !after.contains_key(key)
    &&& forall|k: Seq<char>|
        k != key && before.contains_key(k) ==> after.contains_key(k) && #[trigger] view_of(
            after,
            k,
        ) == view_of(before, k)
}

/// The place of the entity with the identifier `key`, if there is one.
pub fn locate<T: Entity>(table: &Table<T>, index: &OwnerIndex, key: &String) -> (place: Option<
    usize,
>)
    requires
        registry_wf(*table, *index),
    ensures
        match place {
            Some(p) => {
                &&& p < table.keys().len()
                &&& table.keys()[p as int] == key@
                &&& table.contains_key(key@)
                &&& table.position(key@) == p
                &&& table.values()[p as int].key() == key@
                &&& made_for(T::kind(), key@, table.values()[p as int].owner())
                &&& index.has_owner(table.values()[p as int].owner())
                &&& index.ids_of(table.values()[p as int].owner()).contains(key@)
            },
            None => !table.contains_key(key@),
        },
{
    let place = table.find(key);
    proof {
        if let Some(p) = place {
            let entry = records(table.values())[p as int];
            assert(entry.id == table.keys()[p as int]);
        }
    }
    place
}

/// Enters an entity under its identifier, in the place of the entity that
/// stood there or else at the end, and enters the identifier for its owner.
pub fn register<T: Entity>(table: &mut Table<T>, index: &mut OwnerIndex, value: T)
    requires
        registry_wf(*old(table), *old(index)),
        made_for(T::kind(), value.key(), value.owner()),
    ensures
        registry_wf(*final(table), *final(index)),
        final(table).contains_key(value.key()),
        final(table).value_of(value.key()) == value,
        old(table).contains_key(value.key()) ==> final(table).keys() == old(table).keys(),
        old(table).contains_key(value.key()) ==> final(table).values()
            == old(table).values().update(old(table).position(value.key()), value),
        !old(table).contains_key(value.key()) ==> final(table).keys() == old(table).keys().push(
            value.key(),
        ) && final(table).values() == old(table).values().push(value),
        index_added(*old(index), *final(index), value.owner(), value.key()),
        table_set(*old(table), *final(table), value.key(), value@),
{
    let id = value.get_id().clone();
    let owner = value.get_owner_id().clone();
    let ghost record = Record { id: value.key(), owner: value.owner() };
    let ghost keys = table.keys();
    let ghost before = records(table.values());
    let ghost index0 = *index;
    proof {
        if table.contains_key(id@) {
            let place = table.position(id@);
            assert(keys[place] == id@);
            assert(before[place].id == keys[place]);
            lemma_made_for_one_owner(T::kind(), id@, before[place].owner, owner@);
            assert(index.ids_of(owner@).contains(id@));
        }
    }
    table.insert(id.clone(), value);
    index.add(&owner, &id);
    proof {
        let after = records(table.values());
        if keys.contains(record.id) {
            let place = keys.index_of(record.id);
            assert(after =~= before);
            assert forall|o: Seq<char>, i: Seq<char>| #[trigger]
                index.ids_of(o).contains(i) implies index0.ids_of(o).contains(i) by {}
            assert forall|o: Seq<char>| #[trigger] index.ids_of(o) == ids_owned(after, o) by {
                assert(index0.ids_of(o) == ids_owned(before, o));
            }
        } else {
            assert(after =~= before.push(record));
            assert(after.drop_last() =~= before);
            lemma_sound_after_push(keys, before, index0, record, *index);
            lemma_push_no_duplicates(keys, record.id);
            assert forall|o: Seq<char>| #[trigger] index.ids_of(o) == ids_owned(after, o) by {
                assert(index0.ids_of(o) == ids_owned(before, o));
                if index0.ids_of(record.owner).contains(record.id) {
                    assert(keys.contains(record.id));
                }
            }
        }
    }
}

/// Puts an entity in the place of another with the same identifier and
/// owner.
pub fn rewrite<T: Entity>(table: &mut Table<T>, index: &OwnerIndex, place: usize, value: T)
    requires
        registry_wf(*old(table), *index),
        place < old(table).keys().len(),
        value.key() == old(table).keys()[place as int],
        value.owner() == old(table).values()[place as int].owner(),
    ensures
        registry_wf(*final(table), *index),
        final(table).keys() == old(table).keys(),
        final(table).values() == old(table).values().update(place as int, value),
        table_set(*old(table), *final(table), value.key(), value@),
{
    let ghost before = records(table.values());
    proof {
        lemma_index_of_unique(table.keys(), place as int);
    }
    let _ = table.replace_at(place, value);
    proof {
        assert(records(table.values()) =~= before);
    }
}

/// Takes the entity with the identifier `key` out, and the identifier out
/// of the index of its owner.
pub fn unregister<T: Entity>(table: &mut Table<T>, index: &mut OwnerIndex, key: &String) -> (taken:
    Option<T>)
    requires
        registry_wf(*old(table), *old(index)),
    ensures
        registry_wf(*final(table), *final(index)),
        !final(table).contains_key(key@),
        match taken {
            Some(value) => old(table).contains_key(key@) && value == old(table).value_of(key@)
                && final(table).keys() == old(table).keys().remove(old(table).position(key@))
                && final(table).values() == old(table).values().remove(old(table).position(key@))
                && index_removed(*old(index), *final(index), value.owner(), key@)
                && table_unset(*old(table), *final(table), key@),
            None => !old(table).contains_key(key@) && final(table).keys() == old(table).keys()
                && final(table).values() == old(table).values() && *final(index) == *old(index),
        },
{
    let ghost keys = table.keys();
    let ghost before = records(table.values());
    let ghost index0 = *index;
    match table.remove(key) {
        Some(value) => {
            index.remove(value.get_owner_id(), key);
            proof {
                let place = keys.index_of(key@);
                assert(keys.contains(key@));
                assert(0 <= place < keys.len() && keys[place] == key@);
                assert(before[place].owner == value.owner());
                assert(index0.ids_of(before[place].owner).contains(keys[place]));
                assert(records(table.values()) =~= before.remove(place));
                lemma_sound_after_remove(keys, before, index0, place, *index);
                lemma_remove_no_duplicates(keys, place);
                assert(record_ids(before) =~= keys);
                assert forall|o: Seq<char>| #[trigger]
                    index.ids_of(o) == ids_owned(before.remove(place), o) by {
                    assert(index0.ids_of(o) == ids_owned(before, o));
                    lemma_ids_owned_remove(before, place, o);
                }
                assert forall|i: int| 0 <= i < table.keys().len() implies (#[trigger] records(
                    table.values(),
                )[i]).id == table.keys()[i] && made_for(
                    T::kind(),
                    table.keys()[i],
                    records(table.values())[i].owner,
                ) by {
                    let i0 = if i < place { i } else { i + 1 };
                    assert(records(table.values())[i] == before[i0]);
                    assert(table.keys()[i] == keys[i0]);
                }
            }
            Some(value)
        },
        None => None,
    }
}

/// What a table holds after a key is taken out, it held before, and with
/// the same value.
pub proof fn lemma_kept_after_unset<T: Entity>(
    before: Table<T>,
    after: Table<T>,
    gone: Seq<char>,
    key: Seq<char>,
)
    requires
        before.keys().no_duplicates(),
        before.contains_key(gone),
        table_unset(before, after, gone),
        after.contains_key(key),
    ensures
        key != gone,
        before.contains_key(key),
        view_of(after, key) == view_of(before, key),
{
    let place = before.position(gone);
    assert(0 <= place < before.keys().len());
    lemma_remove_no_duplicates(before.keys(), place);
    assert(before.keys()[place] == gone);
}

/// What the owner holds according to the index, in the order of the index.
pub open spec fn owned_views<T: Entity>(table: Table<T>, index: OwnerIndex, owner: Seq<char>) -> Seq<
    T::V,
> {
    Seq::new(index.ids_of(owner).len(), |k: int| view_of(table, index.ids_of(owner)[k]))
}

/// A list of entities as mathematical values.
pub open spec fn views<T: View>(list: Seq<T>) -> Seq<T::V> {
    Seq::new(list.len(), |i: int| list[i]@)
}

/// The first `count` entries of `list` are copies of the entities under
/// the first `count` of `ids`.
pub open spec fn copies_of<T: Entity + Clone>(
    table: Table<T>,
    ids: Seq<Seq<char>>,
    list: Seq<T>,
    count: int,
) -> bool {
    forall|j: int|
        #![trigger ids[j]]
        0 <= j < count ==> table.contains_key(ids[j]) && cloned(table.value_of(ids[j]), list[j])
}

/// Copies of what the owner holds, in the order of the index, unless the
/// owner was never entered.
pub fn owned_entities<T: Entity + Clone>(table: &Table<T>, index: &OwnerIndex, owner: &String) -> (r:
    Option<Vec<T>>)
    requires
        registry_wf(*table, *index),
    ensures
        match r {
            None => !index.has_owner(owner@),
            Some(list) => {
                &&& index.has_owner(owner@)
                &&& list@.len() == index.ids_of(owner@).len()
                &&& copies_of(*table, index.ids_of(owner@), list@, list@.len() as int)
            },
        },
{
    match index.get(owner) {
        None => None,
        Some(set) => {
            let mut list: Vec<T> = Vec::new();
            let mut k: usize = 0;
            while k < set.len()
                invariant
                    registry_wf(*table, *index),
                    set.ids() == index.ids_of(owner@),
                    k <= set.ids().len(),
                    list@.len() == k,
                    copies_of(*table, index.ids_of(owner@), list@, k as int),
                decreases set.ids().len() - k,
            {
                let id = set.id_at(k);
                assert(index.ids_of(owner@).contains(id@));
                let found = table.get(id);
                assert(found is Some);
                let copy = found.unwrap().clone();
                let ghost earlier = list@;
                list.push(copy);
                proof {
                    assert forall|j: int| 0 <= j < k + 1 implies table.contains_key(
                        #[trigger] index.ids_of(owner@)[j],
                    ) && cloned(table.value_of(index.ids_of(owner@)[j]), list@[j]) by {
                        if j < k {
                            assert(list@[j] == earlier[j]);
                        }
                    }
                }
                k += 1;
            }
            Some(list)
        },
    }
}

/// Whether a list of entities can stand in a table: no identifier stands
/// twice, and each names the owner of its entity.
pub open spec fn restorable(kind: Seq<char>, entries: Seq<Record>) -> bool {
    &&& record_ids(entries).no_duplicates()
    &&& forall|i: int|
        0 <= i < entries.len() ==> made_for(kind, (#[trigger] entries[i]).id, entries[i].owner)
}

/// A table and an index that hold exactly the given entities, in their
/// order, and know exactly the given owners besides the owners of the
/// entities.
pub open spec fn holds<T: Entity>(
    table: Table<T>,
    index: OwnerIndex,
    items: Seq<T>,
    owners: Seq<Seq<char>>,
) -> bool {
    &&& table.keys() == record_ids(records(items))
    &&& table.values() == items
    &&& forall|owner: Seq<char>| #[trigger]
        index.has_owner(owner) <==> owners.contains(owner) || owns_any(records(items), owner)
    &&& forall|owner: Seq<char>| #[trigger]
        index.ids_of(owner) == ids_owned(records(items), owner)
}

/// What a table and its index hold can be restored.
pub proof fn lemma_registry_restorable<T: Entity>(table: Table<T>, index: OwnerIndex)
    requires
        registry_wf(table, index),
    ensures
        restorable(T::kind(), records(table.values())),
        record_ids(records(table.values())) == table.keys(),
{
    let entries = records(table.values());
    assert(record_ids(entries) =~= table.keys());
}

/// A table and an index of the given entities and owners, unless the
/// entities cannot be restored.
pub fn restore_registry<T: Entity>(items: Vec<T>, owners: &Vec<String>) -> (r: Option<
    (Table<T>, OwnerIndex),
>)
    ensures
        match r {
            Some((table, index)) => restorable(T::kind(), records(items@)) && registry_wf(
                table,
                index,
            ) && holds(table, index, items@, id_texts(owners@)),
            None => !restorable(T::kind(), records(items@)),
        },
{
    let mut table: Table<T> = Table::new();
    let mut index = OwnerIndex::new();
    let ghost listed = id_texts(owners@);
    let mut k: usize = 0;
    proof {
        assert(records(table.values()) =~= Seq::<Record>::empty());
    }
    while k < owners.len()
        invariant
            k <= owners.len(),
            listed == id_texts(owners@),
            index.wf(),
            table.wf(),
            table.keys().len() == 0,
            table.values().len() == 0,
            forall|owner: Seq<char>| #[trigger]
                index.has_owner(owner) <==> listed.take(k as int).contains(owner),
            forall|owner: Seq<char>| #[trigger] index.ids_of(owner) == Seq::<Seq<char>>::empty(),
        decreases owners.len() - k,
    {
        let ghost before = index;
        index.enter(&owners[k]);
        proof {
            let shorter = listed.take(k as int);
            let longer = listed.take(k + 1);
            assert(longer =~= shorter.push(owners@[k as int]@));
            assert forall|owner: Seq<char>| #[trigger]
                index.has_owner(owner) <==> longer.contains(owner) by {
                assert(before.has_owner(owner) <==> shorter.contains(owner));
                if shorter.contains(owner) {
                    let j = choose|j: int| 0 <= j < shorter.len() && shorter[j] == owner;
                    assert(longer[j] == owner);
                }
                if longer.contains(owner) {
                    let j = choose|j: int| 0 <= j < longer.len() && longer[j] == owner;
                    if j < k {
                        assert(shorter[j] == owner);
                    }
                }
                assert(longer[k as int] == owners@[k as int]@);
            }
        }
        k += 1;
    }
    let ghost all = items@;
    proof {
        assert(listed.take(k as int) =~= listed);
        assert(all.take(0) =~= Seq::<T>::empty());
        assert(records(all.take(0)) =~= Seq::<Record>::empty());
        assert(table.keys() =~= record_ids(records(all.take(0))));
        assert(table.values() =~= all.take(0));
        assert forall|owner: Seq<char>| !owns_any(records(all.take(0)), owner) by {}
    }
    for item in it: items
        invariant
            it.seq() == all,
            listed == id_texts(owners@),
            registry_wf(table, index),
            holds(table, index, all.take(it.index() as int), listed),
    {
        let ghost i = it.index() as int;
        let ghost done = all.take(i);
        let ghost more = all.take(i + 1);
        let ghost entry = Record { id: item.key(), owner: item.owner() };
        proof {
            assert(more =~= done.push(item));
            assert(records(more) =~= records(done).push(entry));
            assert(records(more).drop_last() =~= records(done));
            assert(records(all)[i] == entry);
        }
        if !id_names_owner(T::kind_name(), item.get_id(), item.get_owner_id()) {
            return None;
        }
        if table.find(item.get_id()).is_some() {
            proof {
                let j = table.position(item.key());
                assert(table.keys()[j] == item.key());
                assert(record_ids(records(all))[j] == records(done)[j].id);
                assert(record_ids(records(all))[i] == item.key());
            }
            return None;
        }
        let ghost index0 = index;
        proof {
            if index.ids_of(item.owner()).contains(item.key()) {
                assert(table.keys().contains(item.key()));
            }
        }
        register(&mut table, &mut index, item);
        proof {
            assert(table.keys() =~= record_ids(records(more)));
            assert(table.values() =~= more);
            assert forall|owner: Seq<char>| #[trigger]
                index.has_owner(owner) <==> listed.contains(owner) || owns_any(
                    records(more),
                    owner,
                ) by {
                assert(index0.has_owner(owner) <==> listed.contains(owner) || owns_any(
                    records(done),
                    owner,
                ));
                if owns_any(records(done), owner) {
                    let j = choose|j: int|
                        0 <= j < records(done).len() && (#[trigger] records(done)[j]).owner
                            == owner;
                    assert(records(more)[j].owner == owner);
                }
                if owns_any(records(more), owner) {
                    let j = choose|j: int|
                        0 <= j < records(more).len() && (#[trigger] records(more)[j]).owner
                            == owner;
                    if j < i {
                        assert(records(done)[j].owner == owner);
                    }
                }
                assert(records(more)[i].owner == entry.owner);
            }
            assert forall|owner: Seq<char>| #[trigger]
                index.ids_of(owner) == ids_owned(records(more), owner) by {
                assert(index0.ids_of(owner) == ids_owned(records(done), owner));
            }
        }
    }
    proof {
        assert(all.take(all.len() as int) =~= all);
        lemma_registry_restorable(table, index);
    }
    Some((table, index))
}

} // verus!

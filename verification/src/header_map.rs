use vstd::prelude::*;
use crate::strutil::str_eq;

verus! {

/// First-match lookup over a sequence of (name, value) header entries.
pub open spec fn lookup(entries: Seq<(Seq<char>, Seq<char>)>, key: Seq<char>) -> Option<
    Seq<char>,
>
    decreases entries.len(),
{
    if entries.len() == 0 {
        None
    } else if entries[0].0 == key {
        Some(entries[0].1)
    } else {
        lookup(entries.drop_first(), key)
    }
}

/// Index of the first entry carrying `key`; meaningful only when one exists.
pub open spec fn first_key_index(entries: Seq<(Seq<char>, Seq<char>)>, key: Seq<char>) -> int
    decreases entries.len(),
{
    if entries.len() == 0 {
        0
    } else if entries[0].0 == key {
        0
    } else {
        1 + first_key_index(entries.drop_first(), key)
    }
}

/// No two entries share a name.
pub open spec fn unique_keys(entries: Seq<(Seq<char>, Seq<char>)>) -> bool {
    forall|i: int, j: int|
        0 <= i < j < entries.len() ==> entries[i].0 != entries[j].0
}

/// The entries after storing `value` under `key`: an existing entry is
/// overwritten in place, a new name goes to the end.
pub open spec fn insert_entry(
    entries: Seq<(Seq<char>, Seq<char>)>,
    key: Seq<char>,
    value: Seq<char>,
) -> Seq<(Seq<char>, Seq<char>)> {
    if lookup(entries, key) is Some {
        entries.update(first_key_index(entries, key), (key, value))
    } else {
        entries.push((key, value))
    }
}

/// The entries after storing every entry of `more` into `base`, in order.
pub open spec fn insert_all(
    base: Seq<(Seq<char>, Seq<char>)>,
    more: Seq<(Seq<char>, Seq<char>)>,
) -> Seq<(Seq<char>, Seq<char>)>
    decreases more.len(),
{
    if more.len() == 0 {
        base
    } else {
        insert_all(insert_entry(base, more[0].0, more[0].1), more.drop_first())
    }
}

/// A header map that keeps headers in the order they were first inserted.
///
/// Names are case-sensitive, as stored. Inserting a name that is already
/// present overwrites its value in place, so rendering order is stable.
pub struct HeaderMap {
    items: Vec<(String, String)>,
}

impl HeaderMap {
    /// The entries as (name, value) character sequences, in rendering order.
    pub closed spec fn entries(&self) -> Seq<(Seq<char>, Seq<char>)> {
        self.items@.map_values(|e: (String, String)| (e.0@, e.1@))
    }

    /// Every map built through this type's methods keeps its keys unique.
    pub open spec fn wf(&self) -> bool {
        unique_keys(self.entries())
    }

    pub fn new() -> (r: HeaderMap)
        ensures
            r.entries() =~= Seq::<(Seq<char>, Seq<char>)>::empty(),
            r.wf(),
    {
        HeaderMap { items: Vec::new() }
    }

    pub fn len(&self) -> (r: usize)
        ensures
            r == self.entries().len(),
    {
        self.items.len()
    }

    /// The name and value of the entry at `i`, in rendering order.
    pub fn entry_at(&self, i: usize) -> (r: (&String, &String))
        requires
            i < self.entries().len(),
        ensures
            r.0@ == self.entries()[i as int].0,
            r.1@ == self.entries()[i as int].1,
    {
        let e = &self.items[i];
        (&e.0, &e.1)
    }

    /// The position of the first entry named `key`, if any.
    fn index_of_key(&self, key: &str) -> (r: Option<usize>)
        ensures
            match r {
                Some(i) => i < self.entries().len() && self.entries()[i as int].0 == key@
                    && (forall|j: int| 0 <= j < i ==> self.entries()[j].0 != key@),
                None => forall|j: int|
                    0 <= j < self.entries().len() ==> self.entries()[j].0 != key@,
            },
    {
        let n = self.items.len();
        let mut i: usize = 0;
        while i < n
            invariant
                n == self.items.len(),
                i <= n,
                forall|j: int| 0 <= j < i ==> self.entries()[j].0 != key@,
            decreases n - i,
        {
            if str_eq(self.items[i].0.as_str(), key) {
                return Some(i);
            }
            i += 1;
        }
        None
    }

    /// The value stored under `key`, if any.
    pub fn get(&self, key: &str) -> (r: Option<&String>)
        ensures
            match r {
                Some(v) => lookup(self.entries(), key@) == Some(v@),
                None => lookup(self.entries(), key@) is None,
            },
    {
        match self.index_of_key(key) {
            Some(i) => {
                proof {
                    lemma_lookup_at_first(self.entries(), key@, i as int);
                }
                Some(&self.items[i].1)
            },
            None => {
                proof {
                    lemma_lookup_none(self.entries(), key@);
                }
                None
            },
        }
    }

    pub fn contains_key(&self, key: &str) -> (r: bool)
        ensures
            r == (lookup(self.entries(), key@) is Some),
    {
        self.get(key).is_some()
    }

    /// Stores `value` under `key`, overwriting in place when the name is
    /// already present and appending otherwise.
    pub fn insert(&mut self, key: String, value: String)
        ensures
            final(self).entries() =~= insert_entry(old(self).entries(), key@, value@),
            lookup(final(self).entries(), key@) == Some(value@),
            forall|k: Seq<char>|
                k != key@ ==> lookup(final(self).entries(), k) == lookup(old(self).entries(), k),
            old(self).wf() ==> final(self).wf(),
    {
        let ghost orig = self.entries();
        match self.index_of_key(key.as_str()) {
            Some(i) => {
                proof {
                    lemma_lookup_at_first(orig, key@, i as int);
                }
                self.items[i] = (key, value);
                proof {
                    assert(self.entries() =~= orig.update(i as int, (key@, value@)));
                    lemma_lookup_update_first(orig, key@, value@, i as int);
                    if unique_keys(orig) {
                        lemma_unique_update(orig, key@, value@, i as int);
                    }
                }
            },
            None => {
                proof {
                    lemma_lookup_none(orig, key@);
                }
                self.items.push((key, value));
                proof {
                    assert(self.entries() =~= orig.push((key@, value@)));
                    lemma_lookup_push(orig, (key@, value@), key@);
                    assert forall|k: Seq<char>| k != key@ implies lookup(self.entries(), k)
                        == lookup(orig, k) by {
                        lemma_lookup_push(orig, (key@, value@), k);
                    }
                }
            },
        }
    }

    /// Stores every entry of `other` into `self`, in `other`'s order.
    pub fn extend(&mut self, other: HeaderMap)
        ensures
            final(self).entries() =~= insert_all(old(self).entries(), other.entries()),
            old(self).wf() ==> final(self).wf(),
            other.wf() ==> forall|k: Seq<char>|
                #[trigger] lookup(final(self).entries(), k) == if lookup(
                    other.entries(),
                    k,
                ) is Some {
                    lookup(other.entries(), k)
                } else {
                    lookup(old(self).entries(), k)
                },
    {
        let ghost base = self.entries();
        let ghost more = other.entries();
        let rest = other.items;
        let n = rest.len();
        proof {
            assert(more.skip(0) =~= more);
        }
        let mut i: usize = 0;
        while i < n
            invariant
                n == rest.len(),
                i <= n,
                more == rest@.map_values(|e: (String, String)| (e.0@, e.1@)),
                insert_all(base, more) == insert_all(self.entries(), more.skip(i as int)),
                old(self).wf() ==> self.wf(),
                unique_keys(more) ==> forall|k: Seq<char>|
                    #[trigger] lookup(self.entries(), k) == if lookup(
                        more.take(i as int),
                        k,
                    ) is Some {
                        lookup(more.take(i as int), k)
                    } else {
                        lookup(base, k)
                    },
            decreases n - i,
        {
            let ghost before = self.entries();
            let k = rest[i].0.clone();
            let v = rest[i].1.clone();
            assert((k@, v@) == more[i as int]);
            self.insert(k, v);
            proof {
                assert(more.skip(i as int).drop_first() =~= more.skip(i as int + 1));
                assert(insert_all(self.entries(), more.skip(i as int + 1)) == insert_all(
                    insert_entry(before, more[i as int].0, more[i as int].1),
                    more.skip(i as int).drop_first(),
                ));
                if unique_keys(more) {
                    lemma_extend_lookup_step(base, more, before, self.entries(), i as int);
                }
            }
            i += 1;
        }
        proof {
            assert(more.skip(n as int) =~= Seq::<(Seq<char>, Seq<char>)>::empty());
            assert(more.take(n as int) =~= more);
        }
    }
}

/// One `insert` step keeps the take/skip bookkeeping of `extend` intact.
proof fn lemma_extend_lookup_step(
    base: Seq<(Seq<char>, Seq<char>)>,
    more: Seq<(Seq<char>, Seq<char>)>,
    before: Seq<(Seq<char>, Seq<char>)>,
    after: Seq<(Seq<char>, Seq<char>)>,
    i: int,
)
    requires
        0 <= i < more.len(),
        unique_keys(more),
        lookup(after, more[i].0) == Some(more[i].1),
        forall|k: Seq<char>| k != more[i].0 ==> lookup(after, k) == lookup(before, k),
        forall|k: Seq<char>|
            #[trigger] lookup(before, k) == if lookup(more.take(i), k) is Some {
                lookup(more.take(i), k)
            } else {
                lookup(base, k)
            },
    ensures
        forall|k: Seq<char>|
            #[trigger] lookup(after, k) == if lookup(more.take(i + 1), k) is Some {
                lookup(more.take(i + 1), k)
            } else {
                lookup(base, k)
            },
{
    assert forall|k: Seq<char>| #[trigger] lookup(after, k) == if lookup(
        more.take(i + 1),
        k,
    ) is Some {
        lookup(more.take(i + 1), k)
    } else {
        lookup(base, k)
    } by {
        assert(more.take(i + 1) =~= more.take(i).push(more[i]));
        lemma_lookup_push(more.take(i), more[i], k);
        if k == more[i].0 {
            if lookup(more.take(i), k) is Some {
                lemma_lookup_some_index(more.take(i), k);
            }
        }
    }
}

/// A lookup that succeeds names some entry.
proof fn lemma_lookup_some_index(entries: Seq<(Seq<char>, Seq<char>)>, key: Seq<char>)
    requires
        lookup(entries, key) is Some,
    ensures
        exists|j: int| 0 <= j < entries.len() && entries[j].0 == key,
    decreases entries.len(),
{
    if entries.len() > 0 && entries[0].0 != key {
        lemma_lookup_some_index(entries.drop_first(), key);
        let j = choose|j: int|
            0 <= j < entries.drop_first().len() && entries.drop_first()[j].0 == key;
        assert(entries[j + 1].0 == key);
    }
}

/// Overwriting the first entry of `key` in place: that key now maps to the
/// new value and every other key is untouched.
proof fn lemma_lookup_update_first(
    entries: Seq<(Seq<char>, Seq<char>)>,
    key: Seq<char>,
    value: Seq<char>,
    i: int,
)
    requires
        0 <= i < entries.len(),
        entries[i].0 == key,
        forall|j: int| 0 <= j < i ==> entries[j].0 != key,
    ensures
        lookup(entries.update(i, (key, value)), key) == Some(value),
        forall|k: Seq<char>|
            k != key ==> lookup(entries.update(i, (key, value)), k) == lookup(entries, k),
    decreases i,
{
    reveal_with_fuel(lookup, 3);
    let updated = entries.update(i, (key, value));
    if i == 0 {
        assert forall|k: Seq<char>| k != key implies lookup(updated, k) == lookup(
            entries,
            k,
        ) by {
            assert(updated.drop_first() =~= entries.drop_first());
        }
    } else {
        lemma_lookup_update_first(entries.drop_first(), key, value, i - 1);
        assert(updated.drop_first() =~= entries.drop_first().update(i - 1, (key, value)));
        assert forall|k: Seq<char>| k != key implies lookup(updated, k) == lookup(
            entries,
            k,
        ) by {
            assert(lookup(entries.drop_first().update(i - 1, (key, value)), k) == lookup(
                entries.drop_first(),
                k,
            ));
        }
    }
}

/// Updating an entry without renaming it keeps the keys unique.
proof fn lemma_unique_update(
    entries: Seq<(Seq<char>, Seq<char>)>,
    key: Seq<char>,
    value: Seq<char>,
    i: int,
)
    requires
        0 <= i < entries.len(),
        entries[i].0 == key,
        unique_keys(entries),
    ensures
        unique_keys(entries.update(i, (key, value))),
{
}

/// How lookup behaves on an appended entry.
proof fn lemma_lookup_push(entries: Seq<(Seq<char>, Seq<char>)>, x: (Seq<char>, Seq<char>), k: Seq<char>)
    ensures
        lookup(entries.push(x), k) == if lookup(entries, k) is Some {
            lookup(entries, k)
        } else if x.0 == k {
            Some(x.1)
        } else {
            None::<Seq<char>>
        },
    decreases entries.len(),
{
    reveal_with_fuel(lookup, 3);
    if entries.len() > 0 {
        assert(entries.push(x).drop_first() =~= entries.drop_first().push(x));
        lemma_lookup_push(entries.drop_first(), x, k);
    } else {
        assert(entries.push(x).drop_first() =~= Seq::<(Seq<char>, Seq<char>)>::empty());
    }
}

/// If `key` first appears at `i`, lookup returns that entry's value.
proof fn lemma_lookup_at_first(entries: Seq<(Seq<char>, Seq<char>)>, key: Seq<char>, i: int)
    requires
        0 <= i < entries.len(),
        entries[i].0 == key,
        forall|j: int| 0 <= j < i ==> entries[j].0 != key,
    ensures
        lookup(entries, key) == Some(entries[i].1),
        first_key_index(entries, key) == i,
    decreases i,
{
    if i > 0 {
        lemma_lookup_at_first(entries.drop_first(), key, i - 1);
    }
}

/// If no entry carries `key`, lookup returns nothing.
pub proof fn lemma_lookup_none(entries: Seq<(Seq<char>, Seq<char>)>, key: Seq<char>)
    requires
        forall|j: int| 0 <= j < entries.len() ==> entries[j].0 != key,
    ensures
        lookup(entries, key) is None,
    decreases entries.len(),
{
    if entries.len() > 0 {
        lemma_lookup_none(entries.drop_first(), key);
    }
}

} // verus!

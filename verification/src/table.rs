//! A table from names to values, kept in the order in which the names came.
use vstd::prelude::*;

verus! {

/// A name and what it stands for.
pub struct Entry<V> {
    pub name: String,
    pub value: V,
}

/// A finite map from names to values.
pub struct Table<V> {
    pub(crate) entries: Vec<Entry<V>>,
}

/// The map that a sequence of entries stands for: a later entry overrides
/// an earlier one of the same name.
pub open spec fn entries_map<V: View>(entries: Seq<Entry<V>>) -> Map<Seq<char>, V::V>
    decreases entries.len(),
{
    if entries.len() == 0 {
        Map::empty()
    } else {
        entries_map(entries.drop_last()).insert(entries.last().name@, entries.last().value@)
    }
}

impl<V: View> View for Table<V> {
    type V = Map<Seq<char>, V::V>;

    closed spec fn view(&self) -> Map<Seq<char>, V::V> {
        entries_map(self.entries@)
    }
}

/// Whether no entry at `from` or after has the name.
pub open spec fn absent_from<V>(entries: Seq<Entry<V>>, name: Seq<char>, from: int) -> bool {
    forall|j: int| from <= j < entries.len() ==> entries[j].name@ != name
}

proof fn lemma_lookup<V: View>(entries: Seq<Entry<V>>, name: Seq<char>, i: int)
    requires
        0 <= i < entries.len(),
        entries[i].name@ == name,
        absent_from(entries, name, i + 1),
    ensures
        entries_map(entries).contains_key(name),
        entries_map(entries)[name] == entries[i].value@,
    decreases entries.len(),
{
    if i < entries.len() - 1 {
        lemma_lookup(entries.drop_last(), name, i);
    }
}

proof fn lemma_absent<V: View>(entries: Seq<Entry<V>>, name: Seq<char>)
    requires
        absent_from(entries, name, 0),
    ensures
        !entries_map(entries).contains_key(name),
    decreases entries.len(),
{
    if entries.len() > 0 {
        lemma_absent(entries.drop_last(), name);
    }
}

proof fn lemma_replace<V: View>(entries: Seq<Entry<V>>, i: int, entry: Entry<V>)
    requires
        0 <= i < entries.len(),
        entries[i].name@ == entry.name@,
        absent_from(entries, entry.name@, i + 1),
    ensures
        entries_map(entries.update(i, entry)) == entries_map(entries).insert(
            entry.name@,
            entry.value@,
        ),
    decreases entries.len(),
{
    let changed = entries.update(i, entry);
    if i == entries.len() - 1 {
        assert(changed.drop_last() =~= entries.drop_last());
        assert(entries_map(changed) =~= entries_map(entries).insert(entry.name@, entry.value@));
    } else {
        assert(changed.drop_last() =~= entries.drop_last().update(i, entry));
        lemma_replace(entries.drop_last(), i, entry);
        assert(entries_map(changed) =~= entries_map(entries).insert(entry.name@, entry.value@));
    }
}

impl<V: View> Table<V> {
    /// An empty table.
    pub fn new() -> (r: Table<V>)
        ensures
            r@ == Map::<Seq<char>, V::V>::empty(),
    {
        Table { entries: Vec::new() }
    }

    /// The place of the entry that counts for a name.
    fn find(&self, name: &String) -> (r: Option<usize>)
        ensures
            match r {
                Some(i) => i < self.entries@.len() && self.entries@[i as int].name@ == name@
                    && absent_from(self.entries@, name@, i + 1) && self@.contains_key(name@)
                    && self@[name@] == self.entries@[i as int].value@,
                None => !self@.contains_key(name@),
            },
    {
        let mut n = self.entries.len();
        while n > 0
            invariant
                n <= self.entries@.len(),
                absent_from(self.entries@, name@, n as int),
            decreases n,
        {
            if self.entries[n - 1].name == *name {
                proof {
                    lemma_lookup(self.entries@, name@, n - 1);
                }
                return Some(n - 1);
            }
            n -= 1;
        }
        proof {
            lemma_absent(self.entries@, name@);
        }
        None
    }

    /// The value under a name.
    pub fn get(&self, name: &String) -> (r: Option<&V>)
        ensures
            match r {
                Some(v) => self@.contains_key(name@) && self@[name@] == v@,
                None => !self@.contains_key(name@),
            },
    {
        match self.find(name) {
            Some(i) => Some(&self.entries[i].value),
            None => None,
        }
    }

    /// Whether a name is in the table.
    pub fn contains(&self, name: &String) -> (r: bool)
        ensures
            r == self@.contains_key(name@),
    {
        self.find(name).is_some()
    }

    /// Puts a value under a name, in place of what was there.
    pub fn set(&mut self, name: &String, value: V)
        ensures
            final(self)@ == old(self)@.insert(name@, value@),
    {
        match self.find(name) {
            Some(i) => {
                let entry = Entry { name: name.clone(), value };
                proof {
                    lemma_replace(self.entries@, i as int, entry);
                }
                self.entries[i] = entry;
            },
            None => {
                let entry = Entry { name: name.clone(), value };
                self.entries.push(entry);
                assert(self.entries@.drop_last() =~= old(self).entries@);
            },
        }
    }
}

} // verus!

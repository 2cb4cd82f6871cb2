//! A small table keyed by text, for the caches that are keyed by a server
//! name.

use vstd::prelude::*;

use crate::string::same_text;

verus! {

/// A table from names to values. A name has at most one value: the one that
/// was last inserted for it.
pub struct NameMap<V> {
    entries: Vec<(String, V)>,
}

/// The value of the first of `entries` whose name is `name`.
pub open spec fn first_named<V>(entries: Seq<(String, V)>, name: Seq<char>) -> Option<V>
    decreases entries.len(),
{
    if entries.len() == 0 {
        None
    } else if entries[0].0@ == name {
        Some(entries[0].1)
    } else {
        first_named(entries.drop_first(), name)
    }
}

/// What `first_named` finds lies at the first index that carries the name.
pub proof fn lemma_first_named<V>(entries: Seq<(String, V)>, name: Seq<char>, at: int)
    requires
        0 <= at <= entries.len(),
        forall|k: int| 0 <= k < at ==> (#[trigger] entries[k]).0@ != name,
    ensures
        at < entries.len() && entries[at].0@ == name ==> first_named(entries, name) == Some(
            entries[at].1,
        ),
        at == entries.len() ==> first_named(entries, name) is None,
    decreases entries.len(),
{
    if entries.len() == 0 {
    } else if at == 0 {
    } else {
        let rest = entries.drop_first();
        assert(entries[0].0@ != name);
        assert forall|k: int| 0 <= k < at - 1 implies (#[trigger] rest[k]).0@ != name by {
            assert(rest[k] == entries[k + 1]);
        }
        lemma_first_named(rest, name, at - 1);
        if at < entries.len() {
            assert(rest[at - 1] == entries[at]);
        }
    }
}

/// Replacing the value at the first index that carries a name changes what
/// is found under that name and nothing else.
pub proof fn lemma_first_named_update<V>(
    entries: Seq<(String, V)>,
    at: int,
    entry: (String, V),
    other: Seq<char>,
)
    requires
        0 <= at < entries.len(),
        entries[at].0@ == entry.0@,
        other != entry.0@,
    ensures
        first_named(entries.update(at, entry), other) == first_named(entries, other),
    decreases entries.len(),
{
    let updated = entries.update(at, entry);
    if at == 0 {
        assert(updated.drop_first() =~= entries.drop_first());
    } else {
        assert(updated[0] == entries[0]);
        assert(updated.drop_first() =~= entries.drop_first().update(at - 1, entry));
        lemma_first_named_update(entries.drop_first(), at - 1, entry, other);
    }
}

/// Appending an entry changes nothing for the names that were found before,
/// nor for names other than the new one.
pub proof fn lemma_first_named_push<V>(
    entries: Seq<(String, V)>,
    entry: (String, V),
    other: Seq<char>,
)
    ensures
        first_named(entries, other) is Some ==> first_named(entries.push(entry), other)
            == first_named(entries, other),
        first_named(entries, other) is None && other != entry.0@ ==> first_named(
            entries.push(entry),
            other,
        ) is None,
        first_named(entries, other) is None && other == entry.0@ ==> first_named(
            entries.push(entry),
            other,
        ) == Some(entry.1),
    decreases entries.len(),
{
    let pushed = entries.push(entry);
    if entries.len() == 0 {
        assert(pushed.drop_first() =~= Seq::<(String, V)>::empty());
        assert(pushed[0] == entry);
    } else {
        assert(pushed[0] == entries[0]);
        assert(pushed.drop_first() =~= entries.drop_first().push(entry));
        lemma_first_named_push(entries.drop_first(), entry, other);
    }
}

/// Removing the entry at the first index that carries a name changes
/// nothing for other names.
pub proof fn lemma_first_named_remove<V>(entries: Seq<(String, V)>, at: int, other: Seq<char>)
    requires
        0 <= at < entries.len(),
        other != entries[at].0@,
    ensures
        first_named(entries.remove(at), other) == first_named(entries, other),
    decreases entries.len(),
{
    let removed = entries.remove(at);
    if at == 0 {
        assert(removed =~= entries.drop_first());
    } else {
        assert(removed[0] == entries[0]);
        assert(removed.drop_first() =~= entries.drop_first().remove(at - 1));
        assert(entries.drop_first()[at - 1] == entries[at]);
        lemma_first_named_remove(entries.drop_first(), at - 1, other);
    }
}

impl<V> NameMap<V> {
    /// The value that the table holds for `name`.
    pub closed spec fn lookup(&self, name: Seq<char>) -> Option<V> {
        first_named(self.entries@, name)
    }

    /// A table without entries.
    pub fn new() -> (table: Self)
        ensures
            forall|name: Seq<char>| table.lookup(name) is None,
    {
        NameMap { entries: Vec::new() }
    }

    fn position(&self, name: &str) -> (at: usize)
        ensures
            at <= self.entries@.len(),
            forall|k: int| 0 <= k < at ==> (#[trigger] self.entries@[k]).0@ != name@,
            at < self.entries@.len() ==> self.entries@[at as int].0@ == name@,
    {
        let mut i: usize = 0;
        while i < self.entries.len()
            invariant
                i <= self.entries@.len(),
                forall|k: int| 0 <= k < i ==> (#[trigger] self.entries@[k]).0@ != name@,
            decreases self.entries@.len() - i,
        {
            if same_text(self.entries[i].0.as_str(), name) {
                return i;
            }
            i = i + 1;
        }
        i
    }

    /// Whether the table holds a value for `name`.
    pub fn contains_key(&self, name: &str) -> (found: bool)
        ensures
            found == self.lookup(name@) is Some,
    {
        let at = self.position(name);
        proof {
            lemma_first_named(self.entries@, name@, at as int);
        }
        at < self.entries.len()
    }

    /// The value that the table holds for `name`.
    pub fn get(&self, name: &str) -> (value: Option<&V>)
        ensures
            value is Some <==> self.lookup(name@) is Some,
            value is Some ==> *value->0 == self.lookup(name@)->0,
    {
        let at = self.position(name);
        proof {
            lemma_first_named(self.entries@, name@, at as int);
        }
        if at < self.entries.len() {
            Some(&self.entries[at].1)
        } else {
            None
        }
    }

    /// Takes the value for `name` out of the table, where it holds one.
    /// The values of other names stay as they are.
    pub fn take(&mut self, name: &str) -> (value: Option<V>)
        ensures
            value == old(self).lookup(name@),
            final(self).lookup(name@) is None,
            forall|other: Seq<char>|
                other != name@ ==> final(self).lookup(other) == old(self).lookup(other),
    {
        let mut value: Option<V> = None;
        let mut at = self.position(name);
        proof {
            lemma_first_named(self.entries@, name@, at as int);
        }
        while at < self.entries.len()
            invariant
                at <= self.entries@.len(),
                forall|k: int| 0 <= k < at ==> (#[trigger] self.entries@[k]).0@ != name@,
                at < self.entries@.len() ==> self.entries@[at as int].0@ == name@,
                forall|other: Seq<char>|
                    other != name@ ==> first_named(self.entries@, other) == first_named(
                        old(self).entries@,
                        other,
                    ),
                match value {
                    Some(found) => old(self).lookup(name@) == Some(found),
                    None => old(self).lookup(name@) == first_named(self.entries@, name@),
                },
            decreases self.entries@.len(),
        {
            let ghost before = self.entries@;
            proof {
                lemma_first_named(before, name@, at as int);
            }
            let entry = self.entries.remove(at);
            proof {
                assert forall|other: Seq<char>| other != name@ implies first_named(
                    self.entries@,
                    other,
                ) == first_named(before, other) by {
                    lemma_first_named_remove(before, at as int, other);
                }
            }
            if value.is_none() {
                value = Some(entry.1);
            }
            at = self.position(name);
        }
        proof {
            lemma_first_named(self.entries@, name@, at as int);
        }
        value
    }

    /// Sets the value for `name`, in place of the one it had.
    pub fn insert(&mut self, name: String, value: V)
        ensures
            final(self).lookup(name@) == Some(value),
            forall|other: Seq<char>|
                other != name@ ==> final(self).lookup(other) == old(self).lookup(other),
    {
        let at = self.position(name.as_str());
        let ghost before = self.entries@;
        let ghost entry = (name, value);
        if at < self.entries.len() {
            self.entries.set(at, (name, value));
            proof {
                assert(self.entries@ == before.update(at as int, entry));
                lemma_first_named(self.entries@, entry.0@, at as int);
                assert forall|other: Seq<char>| other != entry.0@ implies first_named(
                    self.entries@,
                    other,
                ) == first_named(before, other) by {
                    lemma_first_named_update(before, at as int, entry, other);
                }
            }
        } else {
            self.entries.push((name, value));
            proof {
                lemma_first_named(before, entry.0@, at as int);
                assert forall|other: Seq<char>| true implies (other != entry.0@ ==> first_named(
                    self.entries@,
                    other,
                ) == first_named(before, other)) && (other == entry.0@ ==> first_named(
                    self.entries@,
                    other,
                ) == Some(entry.1)) by {
                    lemma_first_named_push(before, entry, other);
                }
            }
        }
    }
}

} // verus!

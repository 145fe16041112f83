use vstd::prelude::*;

verus! {

/// The first index at or after `from` whose entry has the name, if any.
pub open spec fn position<V>(entries: Seq<(String, V)>, name: Seq<char>, from: int) -> Option<int>
    decreases entries.len() - from,
{
    if from < 0 || from >= entries.len() {
        None
    } else if entries[from].0@ == name {
        Some(from)
    } else {
        position(entries, name, from + 1)
    }
}

/// Where `position` finds nothing, no entry has the name, and the other way
/// round; where it finds an index, that entry is the first with the name.
pub proof fn lemma_position<V>(entries: Seq<(String, V)>, name: Seq<char>, from: int)
    requires
        0 <= from,
    ensures
        match position(entries, name, from) {
            Some(i) => {
                &&& from <= i < entries.len()
                &&& entries[i].0@ == name
                &&& forall|j: int| from <= j < i ==> (#[trigger] entries[j]).0@ != name
            },
            None => forall|j: int| from <= j < entries.len() ==> (#[trigger] entries[j]).0@ != name,
        },
    decreases entries.len() - from,
{
    if from < entries.len() && entries[from].0@ != name {
        lemma_position(entries, name, from + 1);
    }
}

/// The index of the first entry with the name.
pub fn find_entry<V>(entries: &Vec<(String, V)>, name: &String) -> (r: Option<usize>)
    ensures
        match r {
            Some(i) => position(entries@, name@, 0) == Some(i as int) && i < entries.len(),
            None => position(entries@, name@, 0) is None,
        },
{
    let mut i: usize = 0;
    while i < entries.len()
        invariant
            i <= entries.len(),
            position(entries@, name@, 0) == position(entries@, name@, i as int),
        decreases entries.len() - i,
    {
        if entries[i].0 == *name {
            return Some(i);
        }
        i += 1;
    }
    None
}

/// The value under the name: that of the first entry with the name.
pub open spec fn lookup<V>(entries: Seq<(String, V)>, name: Seq<char>) -> Option<V> {
    match position(entries, name, 0) {
        Some(i) => Some(entries[i].1),
        None => None,
    }
}

/// Two tables with the same names at the same indices find a name at the
/// same index.
pub proof fn lemma_position_same_names<V>(
    a: Seq<(String, V)>,
    b: Seq<(String, V)>,
    name: Seq<char>,
    from: int,
)
    requires
        0 <= from,
        a.len() == b.len(),
        forall|i: int| 0 <= i < a.len() ==> (#[trigger] a[i]).0@ == b[i].0@,
    ensures
        position(a, name, from) == position(b, name, from),
    decreases a.len() - from,
{
    if from < a.len() {
        assert(a[from].0@ == b[from].0@);
        if a[from].0@ != name {
            lemma_position_same_names(a, b, name, from + 1);
        }
    }
}

/// An entry added at the end is found under its name where no entry before
/// it has the name, and changes nothing for the other names.
pub proof fn lemma_position_push<V>(
    entries: Seq<(String, V)>,
    entry: (String, V),
    name: Seq<char>,
    from: int,
)
    requires
        0 <= from <= entries.len(),
    ensures
        position(entries.push(entry), name, from) == (match position(entries, name, from) {
            Some(i) => Some(i),
            None => if entry.0@ == name {
                Some(entries.len() as int)
            } else {
                None
            },
        }),
    decreases entries.len() - from,
{
    let longer = entries.push(entry);
    if from < entries.len() {
        assert(longer[from] == entries[from]);
        if entries[from].0@ != name {
            lemma_position_push(entries, entry, name, from + 1);
        }
    } else {
        assert(longer[from] == entry);
        assert(position(entries, name, from) is None);
        assert(position(longer, name, from + 1) is None);
    }
}

/// Gives the name the value: the first entry with the name gets it; where
/// there is none, an entry is added at the end. Afterwards the name has the
/// value, and every other name has what it had.
pub fn set_entry<V>(entries: &mut Vec<(String, V)>, name: String, value: V)
    ensures
        lookup(final(entries)@, name@) == Some(value),
        forall|other: Seq<char>|
            other != name@ ==> #[trigger] lookup(final(entries)@, other) == lookup(
                old(entries)@,
                other,
            ),
        match position(old(entries)@, name@, 0) {
            Some(i) => final(entries)@ == old(entries)@.update(i, (old(entries)@[i].0, value)),
            None => final(entries)@ == old(entries)@.push((name, value)),
        },
{
    match find_entry(entries, &name) {
        Some(i) => {
            let key = entries[i].0.clone();
            entries.set(i, (key, value));
            proof {
                lemma_position(old(entries)@, name@, 0);
                assert forall|other: Seq<char>|
                    true implies position(entries@, other, 0) == position(
                    old(entries)@,
                    other,
                    0,
                ) by {
                    lemma_position_same_names(entries@, old(entries)@, other, 0);
                }
                assert forall|other: Seq<char>| other != name@ implies #[trigger] lookup(
                    entries@,
                    other,
                ) == lookup(old(entries)@, other) by {
                    lemma_position(old(entries)@, other, 0);
                }
            }
        },
        None => {
            entries.push((name, value));
            proof {
                assert forall|other: Seq<char>|
                    true implies position(entries@, other, 0) == (match position(
                    old(entries)@,
                    other,
                    0,
                ) {
                    Some(i) => Some(i),
                    None => if name@ == other {
                        Some(old(entries)@.len() as int)
                    } else {
                        None
                    },
                }) by {
                    lemma_position_push(old(entries)@, (name, value), other, 0);
                }
                assert forall|other: Seq<char>| other != name@ implies #[trigger] lookup(
                    entries@,
                    other,
                ) == lookup(old(entries)@, other) by {
                    lemma_position(old(entries)@, other, 0);
                }
            }
        },
    }
}

} // verus!

//! A directory from applications to buckets, held as a list of bindings in
//! the order in which they were made. Keys are byte strings, and a list keeps
//! every fact about what the directory holds provable: a lookup is a walk
//! from the newest binding back.

use vstd::prelude::*;
use crate::identity::Identity;

verus! {

/// One entry of a directory: an application and the bucket bound to it.
#[derive(Clone, Debug, PartialEq, Eq)]
pub struct Binding {
    pub application: Identity,
    pub bucket: Identity,
}

impl View for Binding {
    type V = (Seq<u8>, Seq<u8>);

    open spec fn view(&self) -> (Seq<u8>, Seq<u8>) {
        (self.application@, self.bucket@)
    }
}

/// The values of a list of bindings, in order.
pub open spec fn bindings_view(entries: Seq<Binding>) -> Seq<(Seq<u8>, Seq<u8>)> {
    entries.map_values(|b: Binding| b@)
}

/// The directory that a list of entries stands for: a later entry for a key
/// replaces an earlier one.
pub open spec fn bindings_map<V>(entries: Seq<(Seq<u8>, V)>) -> Map<Seq<u8>, V>
    decreases entries.len(),
{
    if entries.len() == 0 {
        Map::empty()
    } else {
        bindings_map(entries.drop_last()).insert(entries.last().0, entries.last().1)
    }
}

/// A key that no entry names is not in the directory.
pub proof fn lemma_unbound<V>(entries: Seq<(Seq<u8>, V)>, key: Seq<u8>)
    requires
        forall|j: int| 0 <= j < entries.len() ==> (#[trigger] entries[j]).0 != key,
    ensures
        !bindings_map(entries).contains_key(key),
    decreases entries.len(),
{
    if entries.len() > 0 {
        lemma_unbound(entries.drop_last(), key);
    }
}

/// The directory gives a key the value of the last entry that names it.
pub proof fn lemma_last_binding<V>(entries: Seq<(Seq<u8>, V)>, key: Seq<u8>, i: int)
    requires
        0 <= i < entries.len(),
        entries[i].0 == key,
        forall|j: int| i < j < entries.len() ==> (#[trigger] entries[j]).0 != key,
    ensures
        bindings_map(entries).contains_key(key),
        bindings_map(entries)[key] == entries[i].1,
    decreases entries.len(),
{
    if i < entries.len() - 1 {
        lemma_last_binding(entries.drop_last(), key, i);
    }
}

/// Replacing the value of the last entry that names a key changes the
/// directory at that key only.
pub proof fn lemma_replace_value<V>(entries: Seq<(Seq<u8>, V)>, i: int, value: V)
    requires
        0 <= i < entries.len(),
        forall|j: int| i < j < entries.len() ==> (#[trigger] entries[j]).0 != entries[i].0,
    ensures
        bindings_map(entries.update(i, (entries[i].0, value))) == bindings_map(entries).insert(
            entries[i].0,
            value,
        ),
    decreases entries.len(),
{
    let key = entries[i].0;
    let after = entries.update(i, (key, value));
    if i == entries.len() - 1 {
        assert(after.drop_last() =~= entries.drop_last());
        assert(bindings_map(after) =~= bindings_map(entries).insert(key, value));
    } else {
        lemma_replace_value(entries.drop_last(), i, value);
        assert(after.drop_last() =~= entries.drop_last().update(i, (key, value)));
        assert(entries.last().0 != key);
        assert(bindings_map(after) =~= bindings_map(entries).insert(key, value));
    }
}

/// A directory from applications to buckets.
#[derive(Debug)]
pub struct Registry {
    entries: Vec<Binding>,
}

impl View for Registry {
    type V = Map<Seq<u8>, Seq<u8>>;

    closed spec fn view(&self) -> Map<Seq<u8>, Seq<u8>> {
        bindings_map(bindings_view(self.entries@))
    }
}

impl Registry {
    /// The empty directory.
    pub fn new() -> (r: Registry)
        ensures
            r@ == Map::<Seq<u8>, Seq<u8>>::empty(),
    {
        Registry { entries: Vec::new() }
    }

    /// The bucket bound to `application`, where there is one.
    pub fn get(&self, application: &Identity) -> (r: Option<&Identity>)
        ensures
            match r {
                Some(bucket) => self@.contains_key(application@) && self@[application@] == bucket@,
                None => !self@.contains_key(application@),
            },
    {
        let ghost all = bindings_view(self.entries@);
        let mut i: usize = self.entries.len();
        while i > 0
            invariant
                i <= self.entries.len(),
                all == bindings_view(self.entries@),
                forall|j: int| i <= j < all.len() ==> (#[trigger] all[j]).0 != application@,
            decreases i,
        {
            i -= 1;
            if self.entries[i].application.same(application) {
                proof {
                    lemma_last_binding(all, application@, i as int);
                }
                return Some(&self.entries[i].bucket);
            }
        }
        proof {
            lemma_unbound(all, application@);
        }
        None
    }

    /// Whether a bucket is bound to `application`.
    pub fn contains(&self, application: &Identity) -> (r: bool)
        ensures
            r == self@.contains_key(application@),
    {
        self.get(application).is_some()
    }

    /// Binds `bucket` to `application`, in place of what was bound to it.
    pub fn insert(&mut self, application: Identity, bucket: Identity)
        ensures
            final(self)@ == old(self)@.insert(application@, bucket@),
    {
        let ghost before = bindings_view(self.entries@);
        self.entries.push(Binding { application, bucket });
        proof {
            let after = bindings_view(self.entries@);
            assert(after.drop_last() =~= before);
        }
    }

    /// The bindings as they were made, oldest first.
    pub fn bindings(&self) -> (r: &Vec<Binding>)
        ensures
            bindings_map(bindings_view(r@)) == self@,
    {
        &self.entries
    }
}

} // verus!

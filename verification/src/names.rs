//! Lookup of entities by name.

use vstd::prelude::*;

verus! {

/// The names of the given entries, in order.
pub open spec fn entry_names<T>(entries: Seq<(String, T)>) -> Seq<Seq<char>> {
    Seq::new(entries.len(), |i: int| entries[i].0@)
}

/// Finds the entry that goes by a name.
pub trait FindEntityByNameExt<T>: Sized {
    /// The names and what stands beside them, in iteration order.
    spec fn named(&self) -> Seq<(String, T)>;

    /// What stands beside the first occurrence of `name`, if the name occurs.
    fn find_entity_by_name(self, name: &str) -> (found: Option<T>)
        ensures
            match entry_names(self.named()).index_of_first(name@) {
                Some(i) => found == Some(self.named()[i].1),
                None => found is None,
            },
    ;
}

impl<T> FindEntityByNameExt<T> for Vec<(String, T)> {
    open spec fn named(&self) -> Seq<(String, T)> {
        self@
    }

    fn find_entity_by_name(self, name: &str) -> (found: Option<T>) {
        let mut entries = self;
        let ghost names = entry_names(entries@);
        let wanted = name.to_owned();
        let mut i: usize = 0;
        while i < entries.len()
            invariant
                i <= entries@.len(),
                entries == self,
                names == entry_names(entries@),
                wanted@ == name@,
                forall|j: int| 0 <= j < i ==> names[j] != name@,
            decreases entries@.len() - i,
        {
            if entries[i].0 == wanted {
                proof {
                    names.index_of_first_ensures(name@);
                    assert(names[i as int] == name@);
                    assert(names.contains(name@));
                }
                let entry = entries.remove(i);
                return Some(entry.1);
            }
            i += 1;
        }
        proof {
            names.index_of_first_ensures(name@);
        }
        None
    }
}

} // verus!

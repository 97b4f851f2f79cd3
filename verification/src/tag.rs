//! Interning of tag strings to small consecutive integers.

use vstd::prelude::*;

verus! {

/// A tag identifier handed out by [`TagRegistry`].
pub type TagId = u32;

/// Interns tag strings to small integers, so that tag-based queries can
/// compare integers instead of strings.
///
/// Identifiers are handed out consecutively starting at zero; a name is
/// never interned twice.
pub struct TagRegistry {
    entries: Vec<(String, u32)>,
    next: u32,
}

impl TagRegistry {
    /// Well-formed: identifiers are exactly the positions of their names,
    /// names are pairwise distinct, and `next` is the number of entries.
    pub closed spec fn wf(self) -> bool {
        &&& self.next as nat == self.entries@.len()
        &&& forall|j: int|
            0 <= j < self.entries@.len() ==> (#[trigger] self.entries@[j]).1 == j as u32
        &&& forall|j: int, k: int|
            0 <= j < k < self.entries@.len() ==> self.entries@[j].0@ != self.entries@[k].0@
    }

    /// Whether `name` has been interned.
    pub closed spec fn spec_contains(self, name: Seq<char>) -> bool {
        exists|j: int| 0 <= j < self.entries@.len() && (#[trigger] self.entries@[j]).0@ == name
    }

    /// The identifier interned for `name` (meaningful when `spec_contains(name)`).
    pub closed spec fn spec_id(self, name: Seq<char>) -> u32 {
        self.entries@[choose|j: int|
            0 <= j < self.entries@.len() && (#[trigger] self.entries@[j]).0@ == name].1
    }

    /// How many names have been interned.
    pub closed spec fn spec_len(self) -> nat {
        self.entries@.len()
    }

    /// Whether one more name can be interned without exhausting the
    /// identifier space.
    pub open spec fn can_intern(self, name: Seq<char>) -> bool {
        self.spec_contains(name) || self.spec_len() < u32::MAX as nat
    }

    /// Under `wf`, the entry at position `j` is what `spec_contains` and
    /// `spec_id` report for its name.
    proof fn lemma_id_at(self, j: int)
        requires
            self.wf(),
            0 <= j < self.spec_len(),
        ensures
            self.spec_contains(self.entries@[j].0@),
            self.spec_id(self.entries@[j].0@) == self.entries@[j].1,
    {
        let name = self.entries@[j].0@;
        assert(self.spec_contains(name));
        let c = choose|k: int| 0 <= k < self.entries@.len() && (#[trigger] self.entries@[k]).0@
            == name;
        if c < j {
            assert(self.entries@[c].0@ != self.entries@[j].0@);
        } else if j < c {
            assert(self.entries@[j].0@ != self.entries@[c].0@);
        }
    }

    /// An empty registry.
    pub fn new() -> (r: TagRegistry)
        ensures
            r.wf(),
            r.spec_len() == 0,
            forall|n: Seq<char>| !r.spec_contains(n),
    {
        TagRegistry { entries: Vec::new(), next: 0 }
    }

    /// Interns `tag`: returns its existing identifier, or assigns the next
    /// free one.  Existing names keep their identifiers.
    pub fn intern(&mut self, tag: &str) -> (id: u32)
        requires
            old(self).wf(),
            old(self).can_intern(tag@),
        ensures
            final(self).wf(),
            final(self).spec_contains(tag@),
            final(self).spec_id(tag@) == id,
            old(self).spec_contains(tag@) ==> *final(self) == *old(self) && id == old(self).spec_id(tag@),
            !old(self).spec_contains(tag@) ==> id as nat == old(self).spec_len() && final(self).spec_len() == old(self).spec_len() + 1,
            forall|n: Seq<char>|
                n != tag@ ==> (#[trigger] final(self).spec_contains(n) <==> old(self).spec_contains(n)),
            forall|n: Seq<char>|
                n != tag@ && old(self).spec_contains(n) ==> #[trigger] final(self).spec_id(n)
                    == old(self).spec_id(n),
    {
        let owned: String = tag.to_owned();
        let n = self.entries.len();
        let mut j: usize = 0;
        while j < n
            invariant
                *self == *old(self),
                old(self).wf(),
                n == self.entries@.len(),
                0 <= j <= n,
                owned@ == tag@,
                forall|k: int| 0 <= k < j ==> (#[trigger] self.entries@[k]).0@ != tag@,
            decreases n - j,
        {
            if self.entries[j].0 == owned {
                proof {
                    self.lemma_id_at(j as int);
                }
                return self.entries[j].1;
            }
            j += 1;
        }
        let id = self.next;
        self.entries.push((owned, id));
        self.next = id + 1;
        proof {
            assert(self.entries@[n as int].0@ == tag@);
            assert(self.wf());
            self.lemma_id_at(n as int);
            assert forall|m: Seq<char>| m != tag@ implies (#[trigger] self.spec_contains(m) <==> old(
                self,
            ).spec_contains(m)) by {
                if self.spec_contains(m) {
                    let k = choose|k: int|
                        0 <= k < self.entries@.len() && (#[trigger] self.entries@[k]).0@ == m;
                    assert(k < n);
                    assert(old(self).entries@[k].0@ == m);
                }
                if old(self).spec_contains(m) {
                    let k = choose|k: int|
                        0 <= k < old(self).entries@.len() && (#[trigger] old(
                            self,
                        ).entries@[k]).0@ == m;
                    assert(self.entries@[k].0@ == m);
                }
            }
            assert forall|m: Seq<char>|
                m != tag@ && old(self).spec_contains(m) implies #[trigger] self.spec_id(m) == old(
                self,
            ).spec_id(m) by {
                let k = choose|k: int|
                    0 <= k < old(self).entries@.len() && (#[trigger] old(self).entries@[k]).0@
                        == m;
                assert(self.entries@[k].0@ == m);
                self.lemma_id_at(k);
                old(self).lemma_id_at(k);
            }
        }
        id
    }

    /// Interns `name`, like [`TagRegistry::intern`].
    pub fn get_or_create(&mut self, name: &str) -> (id: u32)
        requires
            old(self).wf(),
            old(self).can_intern(name@),
        ensures
            final(self).wf(),
            final(self).spec_contains(name@),
            final(self).spec_id(name@) == id,
            old(self).spec_contains(name@) ==> *final(self) == *old(self) && id == old(self).spec_id(name@),
            !old(self).spec_contains(name@) ==> id as nat == old(self).spec_len() && final(self).spec_len() == old(self).spec_len() + 1,
            forall|n: Seq<char>|
                n != name@ ==> (#[trigger] final(self).spec_contains(n) <==> old(self).spec_contains(n)),
            forall|n: Seq<char>|
                n != name@ && old(self).spec_contains(n) ==> #[trigger] final(self).spec_id(n)
                    == old(self).spec_id(n),
    {
        self.intern(name)
    }

    /// How many names have been interned.
    pub fn count(&self) -> (r: usize)
        requires
            self.wf(),
        ensures
            r == self.spec_len(),
    {
        self.entries.len()
    }

    /// Looks `name` up without interning it.
    pub fn lookup(&self, name: &str) -> (r: Option<u32>)
        requires
            self.wf(),
        ensures
            match r {
                Some(id) => self.spec_contains(name@) && id == self.spec_id(name@),
                None => !self.spec_contains(name@),
            },
    {
        let owned: String = name.to_owned();
        let n = self.entries.len();
        let mut j: usize = 0;
        while j < n
            invariant
                n == self.entries@.len(),
                self.wf(),
                0 <= j <= n,
                owned@ == name@,
                forall|k: int| 0 <= k < j ==> (#[trigger] self.entries@[k]).0@ != name@,
            decreases n - j,
        {
            if self.entries[j].0 == owned {
                return Some(self.entries[j].1);
            }
            j += 1;
        }
        None
    }
}

} // verus!

//! The accumulated tag table a whole run feeds, page by page. Whoever
//! extracts `name:value` pairs from a page hands them in one at a time;
//! keys are unique and a later pair under a known name replaces its value.

use vstd::prelude::*;
use crate::text::str_eq;

verus! {

/// The extractor failed before any pair could be handed in.
pub enum TagError {
    RegExParseError(String),
}

/// The accumulated tag table, keys unique.
pub struct Tags {
    tags: Vec<(String, String)>,
}

impl View for Tags {
    type V = Seq<(Seq<char>, Seq<char>)>;

    closed spec fn view(&self) -> Seq<(Seq<char>, Seq<char>)> {
        self.tags@.map_values(|p: (String, String)| (p.0@, p.1@))
    }
}

impl Tags {
    /// Keys are unique.
    pub open spec fn wf(&self) -> bool {
        forall|i: int, j: int|
            0 <= i < j < self@.len() ==> (#[trigger] self@[i]).0 != (#[trigger] self@[j]).0
    }

    /// Whether a tag of that name is present.
    pub open spec fn has_key(&self, name: Seq<char>) -> bool {
        exists|i: int| 0 <= i < self@.len() && (#[trigger] self@[i]).0 == name
    }

    /// An empty table.
    pub fn new() -> (r: Self)
        ensures
            r@ == Seq::<(Seq<char>, Seq<char>)>::empty(),
            r.wf(),
    {
        proof {
            assert(Seq::<(String, String)>::empty().map_values(|p: (String, String)| (p.0@, p.1@))
                =~= Seq::<(Seq<char>, Seq<char>)>::empty());
        }
        Tags { tags: Vec::new() }
    }

    /// How many tags are stored.
    pub fn len(&self) -> (r: usize)
        ensures
            r == self@.len(),
    {
        self.tags.len()
    }

    /// Feeds one extracted pair in: a fresh name is appended, a present
    /// name keeps its place and takes the new value.
    pub fn feed_tag(&mut self, name: String, value: String)
        requires
            old(self).wf(),
        ensures
            final(self).wf(),
            old(self).has_key(name@) ==> exists|k: int|
                0 <= k < old(self)@.len() && (#[trigger] old(self)@[k]).0 == name@ && final(self)@
                    == old(self)@.update(k, (name@, value@)),
            !old(self).has_key(name@) ==> final(self)@ == old(self)@.push((name@, value@)),
    {
        let mut i: usize = 0;
        while i < self.tags.len()
            invariant
                i <= self.tags@.len(),
                self == old(self),
                old(self).wf(),
                forall|j: int| 0 <= j < i ==> (#[trigger] old(self)@[j]).0 != name@,
            decreases self.tags@.len() - i,
        {
            proof {
                assert(self@[i as int] == (self.tags@[i as int].0@, self.tags@[i as int].1@));
            }
            if str_eq(self.tags[i].0.as_str(), name.as_str()) {
                let ghost k = i as int;
                let e = &mut self.tags[i];
                e.1 = value;
                proof {
                    assert(old(self)@[k].0 == name@);
                    assert(final(self)@ =~= old(self)@.update(k, (name@, value@)));
                    assert forall|a: int, b: int|
                        0 <= a < b < final(self)@.len() implies (#[trigger] final(self)@[a]).0
                        != (#[trigger] final(self)@[b]).0 by {
                        assert(old(self)@[a].0 != old(self)@[b].0);
                    }
                }
                return ;
            }
            i += 1;
        }
        let ghost n0 = self@.len() as int;
        self.tags.push((name, value));
        proof {
            assert(final(self)@ =~= old(self)@.push((name@, value@)));
            assert forall|a: int, b: int|
                0 <= a < b < final(self)@.len() implies (#[trigger] final(self)@[a]).0
                != (#[trigger] final(self)@[b]).0 by {
                if b < n0 {
                    assert(old(self)@[a].0 != old(self)@[b].0);
                } else {
                    assert(final(self)@[b] == (name@, value@));
                    assert(final(self)@[a] == old(self)@[a]);
                }
            }
        }
    }
}

} // verus!

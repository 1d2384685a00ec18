//! The membership index: an append-only store of trace tags with an exact
//! membership test.

use crate::tool::utils::bytes_equal;
use vstd::prelude::*;

verus! {

/// The tags of `tags`, each as a byte sequence.
pub open spec fn tags_view(tags: Seq<Vec<u8>>) -> Seq<Seq<u8>> {
    Seq::new(tags.len(), |i: int| tags[i]@)
}

/// The membership answers for `tags` against the stored tags `stored`, in the
/// order of `tags`.
pub open spec fn spec_mexists(stored: Seq<Seq<u8>>, tags: Seq<Vec<u8>>) -> Seq<bool> {
    Seq::new(tags.len(), |i: int| stored.contains(tags[i]@))
}

/// An exact membership index. Its view is the sequence of the tags written so
/// far, oldest first.
pub struct TagIndex {
    tags: Vec<Vec<u8>>,
}

impl View for TagIndex {
    type V = Seq<Seq<u8>>;

    closed spec fn view(&self) -> Seq<Seq<u8>> {
        tags_view(self.tags@)
    }
}

impl TagIndex {
    /// An index that holds no tag.
    pub fn new() -> (index: TagIndex)
        ensures
            index@ == Seq::<Seq<u8>>::empty(),
    {
        let index = TagIndex { tags: Vec::new() };
        assert(index@ =~= Seq::<Seq<u8>>::empty());
        index
    }

    /// How many tags were written.
    pub fn len(&self) -> (n: usize)
        ensures
            n == self@.len(),
    {
        self.tags.len()
    }

    /// Appends `tags`, in order. Nothing that was stored leaves.
    pub fn add(&mut self, tags: &Vec<Vec<u8>>)
        ensures
            final(self)@ == old(self)@ + tags_view(tags@),
    {
        let mut i: usize = 0;
        while i < tags.len()
            invariant
                i <= tags@.len(),
                self@ == old(self)@ + tags_view(tags@.subrange(0, i as int)),
            decreases tags@.len() - i,
        {
            let ghost before = self@;
            self.tags.push(tags[i].clone());
            assert(self@ =~= before.push(tags@[i as int]@));
            assert(self@ =~= old(self)@ + tags_view(tags@.subrange(0, i + 1)));
            i = i + 1;
        }
        assert(tags@.subrange(0, tags@.len() as int) =~= tags@);
    }

    /// Whether `tag` was written.
    pub fn contains(&self, tag: &Vec<u8>) -> (found: bool)
        ensures
            found == self@.contains(tag@),
    {
        let mut i: usize = 0;
        while i < self.tags.len()
            invariant
                i <= self.tags@.len(),
                forall|j: int| 0 <= j < i ==> self@[j] != tag@,
            decreases self.tags@.len() - i,
        {
            if bytes_equal(self.tags[i].as_slice(), tag.as_slice()) {
                assert(self@[i as int] == tag@);
                return true;
            }
            i = i + 1;
        }
        false
    }

    /// Whether each of `tags` was written, in the order of `tags`.
    pub fn mexists(&self, tags: &Vec<Vec<u8>>) -> (found: Vec<bool>)
        ensures
            found@ == spec_mexists(self@, tags@),
    {
        let mut found: Vec<bool> = Vec::new();
        let mut i: usize = 0;
        while i < tags.len()
            invariant
                i <= tags@.len(),
                found@ == spec_mexists(self@, tags@.subrange(0, i as int)),
            decreases tags@.len() - i,
        {
            let hit = self.contains(&tags[i]);
            found.push(hit);
            assert(found@ =~= spec_mexists(self@, tags@.subrange(0, i + 1)));
            i = i + 1;
        }
        assert(tags@.subrange(0, tags@.len() as int) =~= tags@);
        found
    }

    /// The membership answers for several lists of tags at once: one list of
    /// answers for each list of `pack_keys`, in order.
    pub fn mexists_pack(&self, pack_keys: &Vec<Vec<Vec<u8>>>) -> (found: Vec<Vec<bool>>)
        ensures
            found@.len() == pack_keys@.len(),
            forall|i: int|
                0 <= i < pack_keys@.len() ==> (#[trigger] found@[i])@ == spec_mexists(
                    self@,
                    pack_keys@[i]@,
                ),
    {
        let mut found: Vec<Vec<bool>> = Vec::new();
        let mut i: usize = 0;
        while i < pack_keys.len()
            invariant
                i <= pack_keys@.len(),
                found@.len() == i,
                forall|k: int|
                    0 <= k < i ==> (#[trigger] found@[k])@ == spec_mexists(self@, pack_keys@[k]@),
            decreases pack_keys@.len() - i,
        {
            let answers = self.mexists(&pack_keys[i]);
            found.push(answers);
            i = i + 1;
        }
        found
    }

    /// Forgets every tag.
    pub fn clear(&mut self)
        ensures
            final(self)@ == Seq::<Seq<u8>>::empty(),
    {
        self.tags = Vec::new();
        assert(self@ =~= Seq::<Seq<u8>>::empty());
    }
}

} // verus!

//! The three stores that the protocol keeps beside the message channel: the
//! membership index of trace tags, the identity keys, and the neighbor index.
//!
//! These are the exact, in-memory forms. Each is queried and appended to, and
//! never changed under a running trace.

use vstd::prelude::*;

pub mod db_ik;
pub mod db_nbr;
pub mod db_tag;

verus! {

/// What the three stores hold, as the contracts see it.
#[verifier::ext_equal]
pub struct World {
    /// The trace tags that were written, oldest first.
    pub tags: Seq<Seq<u8>>,
    /// The neighbors of each user.
    pub nbrs: Map<u32, Seq<u32>>,
    /// The identity key of each registered user.
    pub keys: Map<u32, Seq<u8>>,
}

/// The three stores, handed as one to whatever works on them.
pub struct Stores {
    pub tags: db_tag::TagIndex,
    pub nbrs: db_nbr::NbrIndex,
    pub id_keys: db_ik::IdKeyStore,
}

impl View for Stores {
    type V = World;

    open spec fn view(&self) -> World {
        World { tags: self.tags@, nbrs: self.nbrs@, keys: self.id_keys@ }
    }
}

impl Stores {
    /// Three empty stores.
    pub fn new() -> (stores: Stores)
        ensures
            stores@ == (World {
                tags: Seq::empty(),
                nbrs: Map::empty(),
                keys: Map::empty(),
            }),
    {
        Stores {
            tags: db_tag::TagIndex::new(),
            nbrs: db_nbr::NbrIndex::new(),
            id_keys: db_ik::IdKeyStore::new(),
        }
    }
}

} // verus!

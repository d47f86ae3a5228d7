//! The link store: the authoritative mapping from short identifier to target
//! URL.
//!
//! The store is modelled as a mathematical map from identifier characters to
//! target characters. Entries are only ever added, each under an identifier
//! that was free when it was handed out; nothing is removed or overwritten.
//! Callers that share one store across threads wrap it in a mutual-exclusion
//! lock and hold the lock for one whole operation, so every `create` and
//! `lookup` below describes one atomic step of the shared state.

use vstd::prelude::*;

use crate::idgen::generate_id;
use crate::idgen::is_valid_id;

verus! {

/// Upper bound on how many fresh candidates one create operation may try
/// before it reports the identifier space as saturated.
pub const MAX_CREATE_ATTEMPTS: usize = 16;

/// Why a create operation failed.
#[derive(Debug, Clone, Copy, PartialEq, Eq, Structural)]
pub enum CreateError {
    /// Every candidate identifier collided with one already handed out: the
    /// identifier space is near saturation.
    IdSpaceSaturated,
}

/// What resolving `id` finds in store contents `m`.
pub open spec fn lookup_outcome(m: Map<Seq<char>, Seq<char>>, id: Seq<char>) -> Option<Seq<char>> {
    if m.dom().contains(id) {
        Some(m[id])
    } else {
        None
    }
}

/// The mapping that a sequence of (identifier, target) entries denotes.
spec fn map_of(entries: Seq<(String, String)>) -> Map<Seq<char>, Seq<char>>
    decreases entries.len(),
{
    if entries.len() == 0 {
        Map::empty()
    } else {
        map_of(entries.drop_last()).insert(entries.last().0@, entries.last().1@)
    }
}

/// No two entries share an identifier.
spec fn keys_unique(entries: Seq<(String, String)>) -> bool {
    forall|i: int, j: int| 0 <= i < j < entries.len() ==> entries[i].0@ != entries[j].0@
}

/// Some entry carries the identifier `k`.
spec fn has_key(entries: Seq<(String, String)>, k: Seq<char>) -> bool {
    exists|i: int| 0 <= i < entries.len() && entries[i].0@ == k
}

proof fn lemma_map_of_dom(entries: Seq<(String, String)>, k: Seq<char>)
    ensures
        map_of(entries).dom().contains(k) <==> has_key(entries, k),
    decreases entries.len(),
{
    if entries.len() == 0 {
    } else {
        let prefix = entries.drop_last();
        lemma_map_of_dom(prefix, k);
        if entries.last().0@ == k {
            assert(entries[entries.len() - 1].0@ == k);
        } else {
            if has_key(prefix, k) {
                let i = choose|i: int| 0 <= i < prefix.len() && prefix[i].0@ == k;
                assert(entries[i].0@ == k);
            }
            if has_key(entries, k) {
                let i = choose|i: int| 0 <= i < entries.len() && entries[i].0@ == k;
                assert(prefix[i] == entries[i]);
            }
        }
    }
}

proof fn lemma_map_of_get(entries: Seq<(String, String)>, i: int)
    requires
        keys_unique(entries),
        0 <= i < entries.len(),
    ensures
        map_of(entries).dom().contains(entries[i].0@),
        map_of(entries)[entries[i].0@] == entries[i].1@,
    decreases entries.len(),
{
    let prefix = entries.drop_last();
    if i == entries.len() - 1 {
    } else {
        assert(prefix[i] == entries[i]);
        assert(keys_unique(prefix)) by {
            assert forall|x: int, y: int|
                0 <= x < y < prefix.len() implies prefix[x].0@ != prefix[y].0@ by {
                assert(prefix[x] == entries[x]);
                assert(prefix[y] == entries[y]);
            }
        }
        lemma_map_of_get(prefix, i);
        assert(entries[i].0@ != entries[entries.len() - 1].0@);
    }
}

/// The identifier→URL store. Its abstract value (the view) is the map from
/// identifier characters to target characters.
pub struct LinkStore {
    entries: Vec<(String, String)>,
}

impl View for LinkStore {
    type V = Map<Seq<char>, Seq<char>>;

    closed spec fn view(&self) -> Map<Seq<char>, Seq<char>> {
        map_of(self.entries@)
    }
}

impl LinkStore {
    /// Identifiers handed out are unique within the store's lifetime.
    #[verifier::type_invariant]
    spec fn well_formed(&self) -> bool {
        keys_unique(self.entries@)
    }

    /// An empty store: no identifier resolves yet.
    pub fn new() -> (s: Self)
        ensures
            s@ == Map::<Seq<char>, Seq<char>>::empty(),
            s@.dom().finite(),
    {
        LinkStore { entries: Vec::new() }
    }

    /// Does the store hold an entry for `id`?
    pub fn contains_id(&self, id: &String) -> (r: bool)
        ensures
            r == self@.dom().contains(id@),
    {
        let mut i: usize = 0;
        while i < self.entries.len()
            invariant
                i <= self.entries@.len(),
                forall|j: int| 0 <= j < i ==> self.entries@[j].0@ != id@,
            decreases self.entries@.len() - i,
        {
            if self.entries[i].0 == *id {
                proof {
                    assert(self.entries@[i as int].0@ == id@);
                    lemma_map_of_dom(self.entries@, id@);
                }
                return true;
            }
            i += 1;
        }
        proof {
            lemma_map_of_dom(self.entries@, id@);
        }
        false
    }

    /// Resolve an identifier: the stored target if the identifier was handed
    /// out, nothing otherwise. Read-only, so the store is untouched.
    pub fn lookup(&self, id: &String) -> (r: Option<String>)
        ensures
            match r {
                Some(target) => lookup_outcome(self@, id@) == Some(target@),
                None => lookup_outcome(self@, id@) is None,
            },
    {
        proof {
            use_type_invariant(self);
        }
        let mut i: usize = 0;
        while i < self.entries.len()
            invariant
                self.well_formed(),
                i <= self.entries@.len(),
                forall|j: int| 0 <= j < i ==> self.entries@[j].0@ != id@,
            decreases self.entries@.len() - i,
        {
            if self.entries[i].0 == *id {
                proof {
                    lemma_map_of_get(self.entries@, i as int);
                }
                return Some(self.entries[i].1.clone());
            }
            i += 1;
        }
        proof {
            lemma_map_of_dom(self.entries@, id@);
        }
        None
    }

    /// Store `target` under `id` if `id` is still free, and report whether it
    /// was; a store holding `id` already is left unchanged.
    pub fn insert_if_absent(&mut self, id: String, target: String) -> (inserted: bool)
        ensures
            inserted == !old(self)@.dom().contains(id@),
            final(self)@ == (if inserted {
                old(self)@.insert(id@, target@)
            } else {
                old(self)@
            }),
            old(self)@.dom().finite() ==> final(self)@.dom().finite(),
    {
        proof {
            use_type_invariant(&*self);
        }
        if self.contains_id(&id) {
            return false;
        }
        proof {
            lemma_map_of_dom(self.entries@, id@);
        }
        let mut entries: Vec<(String, String)> = Vec::new();
        std::mem::swap(&mut entries, &mut self.entries);
        let ghost pre = entries@;
        entries.push((id, target));
        proof {
            assert(pre.push((id, target)).drop_last() =~= pre);
            assert forall|x: int, y: int|
                0 <= x < y < entries@.len() implies entries@[x].0@ != entries@[y].0@ by {
                if y == entries@.len() - 1 {
                    assert(entries@[x] == pre[x]);
                } else {
                    assert(entries@[x] == pre[x]);
                    assert(entries@[y] == pre[y]);
                }
            }
        }
        self.entries = entries;
        true
    }

    /// Shorten: store `target` under a fresh random identifier and return
    /// that identifier. A candidate that collides with an identifier already
    /// handed out is discarded and generation retried, `MAX_CREATE_ATTEMPTS`
    /// times at most; when every candidate collided, the identifier space is
    /// near saturation, the error says so, and the store is unchanged. A
    /// collision presupposes a stored key that is itself a well-shaped
    /// identifier, so on a store without one — the empty store above all —
    /// the very first candidate is fresh and create is sure to succeed.
    pub fn create(&mut self, target: String) -> (r: Result<String, CreateError>)
        ensures
            old(self)@.dom().finite() ==> final(self)@.dom().finite(),
            match r {
                Ok(id) => {
                    &&& is_valid_id(id@)
                    &&& !old(self)@.dom().contains(id@)
                    &&& final(self)@ == old(self)@.insert(id@, target@)
                },
                Err(e) => {
                    &&& e == CreateError::IdSpaceSaturated
                    &&& final(self)@ == old(self)@
                    &&& exists|k: Seq<char>|
                        #[trigger] old(self)@.dom().contains(k) && is_valid_id(k)
                },
            },
    {
        let mut attempt: usize = 0;
        while attempt < MAX_CREATE_ATTEMPTS
            invariant
                self@ == old(self)@,
                attempt > 0 ==> exists|k: Seq<char>|
                    #[trigger] old(self)@.dom().contains(k) && is_valid_id(k),
            decreases MAX_CREATE_ATTEMPTS - attempt,
        {
            let id = generate_id();
            let stored = self.insert_if_absent(id.clone(), target.clone());
            if stored {
                return Ok(id);
            }
            proof {
                assert(old(self)@.dom().contains(id@) && is_valid_id(id@));
            }
            attempt += 1;
        }
        Err(CreateError::IdSpaceSaturated)
    }
}

/// Law: storing a target under an identifier and then resolving that
/// identifier finds exactly that target, whatever the store held before.
pub proof fn lemma_create_then_lookup(
    m: Map<Seq<char>, Seq<char>>,
    id: Seq<char>,
    target: Seq<char>,
)
    ensures
        lookup_outcome(m.insert(id, target), id) == Some(target),
{
}

/// Law: resolving an identifier that is no key of the store finds nothing.
pub proof fn lemma_unknown_id_not_found(m: Map<Seq<char>, Seq<char>>, id: Seq<char>)
    requires
        !m.dom().contains(id),
    ensures
        lookup_outcome(m, id) is None,
{
}

/// Law: create operations, serialized by the store's exclusive-access
/// discipline, hand out pairwise distinct identifiers: the first create's
/// identifier is a key of the state it leaves, and the second create only
/// returns an identifier that is no key of that state.
pub proof fn lemma_creates_distinct(
    m0: Map<Seq<char>, Seq<char>>,
    id1: Seq<char>,
    target1: Seq<char>,
    id2: Seq<char>,
)
    requires
        !m0.dom().contains(id1),
        !m0.insert(id1, target1).dom().contains(id2),
    ensures
        id1 != id2,
{
}

/// Law: lookup is idempotent. Its outcome is a function of the store
/// contents and the identifier alone, and lookup never changes the store, so
/// two lookups of one identifier with no intervening create agree.
pub proof fn lemma_lookup_idempotent(
    m: Map<Seq<char>, Seq<char>>,
    id: Seq<char>,
    first: Option<Seq<char>>,
    second: Option<Seq<char>>,
)
    requires
        first == lookup_outcome(m, id),
        second == lookup_outcome(m, id),
    ensures
        first == second,
{
}

} // verus!

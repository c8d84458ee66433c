use crate::balances::Balances;
use crate::kitty::Error;
use crate::kitty::Event;
use crate::kitty::Kitty;
use std::collections::HashMap;
use vstd::prelude::*;

verus! {

broadcast use vstd::std_specs::hash::group_hash_axioms;

/// The sequence `s` after a swap-and-pop removal of position `i`: the last
/// element moves into slot `i` and the tail slot is truncated.
pub open spec fn swap_removed(s: Seq<u64>, i: int) -> Seq<u64> {
    s.update(i, s.last()).drop_last()
}

/// The asset service: the token store, the global registry, the per-owner
/// ownership ledgers and the ownership directory, kept consistent as one unit.
/// Each operation either succeeds and updates every structure it names, or
/// fails and changes nothing.
pub struct KittyModule {
    /// Token store: identifier to full token record.
    kitties: HashMap<u64, Kitty>,
    /// Ownership directory: identifier to current owner.
    kitty_owner: HashMap<u64, u64>,
    /// Global registry: token identifiers in creation order.
    all_kitties: Vec<u64>,
    /// Reverse lookup into the global registry: identifier to its position.
    all_kitties_index: HashMap<u64, u64>,
    /// Ownership ledger: each owner's token identifiers in ledger order.
    owned_kitties: HashMap<u64, Vec<u64>>,
    /// Reverse lookup into the ledgers: identifier to its position within its
    /// owner's ledger.
    owned_kitties_index: HashMap<u64, u64>,
    /// Sequence number for the next token minted through `create_kitty`.
    kitty_count: u32,
    /// Salt handed to the randomness source; stepped on every mint.
    nonce: u8,
    /// The price a token starts at and returns to after a sale.
    base_price: u64,
    /// Log of notifications, one per successful operation (two for a buy).
    events: Vec<Event>,
}

/// The record a freshly created token carries: its identifier doubles as its
/// genome, it is priced at the base price, and it belongs to generation zero.
pub open spec fn fresh_kitty(id: u64, base_price: u64, number: u32) -> Kitty {
    Kitty { id, dna: id, price: base_price, gen: 0, number }
}

/// The identifier-allocation salt after one mint: stepped by one, wrapping.
pub open spec fn next_nonce(n: u8) -> u8 {
    if n == u8::MAX {
        0
    } else {
        (n + 1) as u8
    }
}

/// An update that rewrites token records or the event log but leaves the
/// directory, the registry, the ledgers and the reverse lookups as they were
/// keeps the service well-formed.
proof fn lemma_wf_preserved_by_record_update(pre: KittyModule, post: KittyModule)
    requires
        pre.wf(),
        post.kitties@.dom() == pre.kitties@.dom(),
        post.kitty_owner == pre.kitty_owner,
        post.all_kitties == pre.all_kitties,
        post.all_kitties_index == pre.all_kitties_index,
        post.owned_kitties == pre.owned_kitties,
        post.owned_kitties_index == pre.owned_kitties_index,
    ensures
        post.wf(),
{
    assert forall|o: u64| #[trigger] post.owned_seq(o) == pre.owned_seq(o) by {}
    assert forall|o: u64, j: int| 0 <= j < post.owned_seq(o).len() implies {
        let id = #[trigger] post.owned_seq(o)[j];
        &&& post.kitties@.contains_key(id)
        &&& post.kitty_owner@.contains_key(id)
        &&& post.kitty_owner@[id] == o
        &&& post.owned_kitties_index@[id] as int == j
    } by {
        assert(pre.owned_seq(o)[j] == post.owned_seq(o)[j]);
    }
}

impl KittyModule {
    /// The token record minted under `id`, if any.
    pub closed spec fn spec_kitty(self, id: u64) -> Option<Kitty> {
        if self.kitties@.contains_key(id) {
            Some(self.kitties@[id])
        } else {
            None
        }
    }

    /// Whether a token with identifier `id` has been minted.
    pub open spec fn minted(self, id: u64) -> bool {
        self.spec_kitty(id) is Some
    }

    /// The current owner of token `id`, if it exists.
    pub closed spec fn spec_owner_of(self, id: u64) -> Option<u64> {
        if self.kitty_owner@.contains_key(id) {
            Some(self.kitty_owner@[id])
        } else {
            None
        }
    }

    /// The global registry as a sequence: position to token identifier.
    pub closed spec fn all_seq(self) -> Seq<u64> {
        self.all_kitties@
    }

    /// Owner `o`'s ledger as a sequence: position to token identifier.
    pub closed spec fn owned_seq(self, o: u64) -> Seq<u64> {
        if self.owned_kitties@.contains_key(o) {
            self.owned_kitties@[o]@
        } else {
            Seq::empty()
        }
    }

    /// The global registry position recorded for `id` (meaningful only when
    /// `id` is minted).
    pub closed spec fn spec_global_index_of(self, id: u64) -> u64 {
        self.all_kitties_index@[id]
    }

    /// The ledger position recorded for `id` within its owner's ledger
    /// (meaningful only when `id` is minted).
    pub closed spec fn spec_owned_index_of(self, id: u64) -> u64 {
        self.owned_kitties_index@[id]
    }

    /// The identifier at global registry position `i`, if in range.
    pub open spec fn spec_kitty_by_index(self, i: u64) -> Option<u64> {
        if i < self.all_seq().len() {
            Some(self.all_seq()[i as int])
        } else {
            None
        }
    }

    /// The identifier at position `i` of owner `o`'s ledger, if in range.
    pub open spec fn spec_kitty_of_owner(self, o: u64, i: u64) -> Option<u64> {
        if i < self.owned_seq(o).len() {
            Some(self.owned_seq(o)[i as int])
        } else {
            None
        }
    }

    /// The sequence number the next token created will carry.
    pub closed spec fn spec_kitty_count(self) -> u32 {
        self.kitty_count
    }

    /// The current salt for identifier allocation.
    pub closed spec fn spec_nonce(self) -> u8 {
        self.nonce
    }

    /// The configured base price.
    pub closed spec fn spec_base_price(self) -> u64 {
        self.base_price
    }

    /// The event log.
    pub closed spec fn spec_events(self) -> Seq<Event> {
        self.events@
    }

    /// Placement consistency, the invariant every operation preserves:
    /// the directory, the registry, the ledgers and the two reverse lookups
    /// all agree. Every minted token stands at exactly one global position and
    /// at exactly one position of exactly one owner's ledger, each reverse
    /// lookup points back at the true position, and the directory names that
    /// owner.
    pub closed spec fn wf(self) -> bool {
        &&& self.kitty_owner@.dom() =~= self.kitties@.dom()
        &&& self.all_kitties_index@.dom() =~= self.kitties@.dom()
        &&& self.owned_kitties_index@.dom() =~= self.kitties@.dom()
        // Every registry slot holds a minted token whose recorded position is
        // that slot.
        &&& forall|i: int|
            0 <= i < self.all_kitties@.len() ==> self.kitties@.contains_key(
                #[trigger] self.all_kitties@[i],
            ) && self.all_kitties_index@[self.all_kitties@[i]] as int == i
        // Every minted token's recorded global position holds it.
        &&& forall|id: u64|
            #[trigger] self.kitties@.contains_key(id) ==> {
                &&& self.all_kitties_index@[id] < self.all_kitties@.len()
                &&& self.all_kitties@[self.all_kitties_index@[id] as int] == id
            }
        // Every minted token stands in its owner's ledger at its recorded
        // position.
        &&& forall|id: u64|
            #[trigger] self.kitty_owner@.contains_key(id) ==> {
                &&& self.owned_kitties_index@[id] < self.owned_seq(self.kitty_owner@[id]).len()
                &&& self.owned_seq(self.kitty_owner@[id])[self.owned_kitties_index@[id] as int]
                    == id
            }
        // Every ledger slot holds a minted token owned by that ledger's owner,
        // and the recorded position is that slot.
        &&& forall|o: u64, j: int|
            0 <= j < self.owned_seq(o).len() ==> {
                let id = #[trigger] self.owned_seq(o)[j];
                &&& self.kitties@.contains_key(id)
                &&& self.kitty_owner@.contains_key(id)
                &&& self.kitty_owner@[id] == o
                &&& self.owned_kitties_index@[id] as int == j
            }
    }

    /// A fresh service with the given base price: nothing minted, counters at
    /// zero, no events.
    pub fn new(base_price: u64) -> (r: KittyModule)
        ensures
            r.wf(),
            forall|id: u64| !r.minted(id),
            forall|o: u64| r.owned_seq(o) == Seq::<u64>::empty(),
            r.all_seq() == Seq::<u64>::empty(),
            r.spec_kitty_count() == 0,
            r.spec_nonce() == 0,
            r.spec_base_price() == base_price,
            r.spec_events() == Seq::<Event>::empty(),
    {
        KittyModule {
            kitties: HashMap::new(),
            kitty_owner: HashMap::new(),
            all_kitties: Vec::new(),
            all_kitties_index: HashMap::new(),
            owned_kitties: HashMap::new(),
            owned_kitties_index: HashMap::new(),
            kitty_count: 0,
            nonce: 0,
            base_price,
            events: Vec::new(),
        }
    }

    /// Total supply: how many tokens the global registry holds.
    pub fn all_kitties_count(&self) -> (r: u64)
        ensures
            r == self.all_seq().len(),
    {
        self.all_kitties.len() as u64
    }

    /// The token identifier at global registry position `index`.
    pub fn kitty_by_index(&self, index: u64) -> (r: Option<u64>)
        ensures
            r == self.spec_kitty_by_index(index),
    {
        if index < self.all_kitties.len() as u64 {
            Some(self.all_kitties[index as usize])
        } else {
            None
        }
    }

    /// How many tokens `owner` holds.
    pub fn owned_kitty_count(&self, owner: u64) -> (r: u64)
        ensures
            r == self.owned_seq(owner).len(),
    {
        match self.owned_kitties.get(&owner) {
            Some(v) => v.len() as u64,
            None => 0,
        }
    }

    /// The token identifier at position `index` of `owner`'s ledger.
    pub fn kitty_of_owner(&self, owner: u64, index: u64) -> (r: Option<u64>)
        ensures
            r == self.spec_kitty_of_owner(owner, index),
    {
        match self.owned_kitties.get(&owner) {
            Some(v) => {
                if index < v.len() as u64 {
                    Some(v[index as usize])
                } else {
                    None
                }
            },
            None => None,
        }
    }

    /// The token record minted under `id`.
    pub fn kitty(&self, id: u64) -> (r: Option<Kitty>)
        ensures
            r == self.spec_kitty(id),
    {
        match self.kitties.get(&id) {
            Some(k) => Some(*k),
            None => None,
        }
    }

    /// The current owner of token `id`.
    pub fn owner_of_kitty(&self, id: u64) -> (r: Option<u64>)
        ensures
            r == self.spec_owner_of(id),
    {
        match self.kitty_owner.get(&id) {
            Some(o) => Some(*o),
            None => None,
        }
    }

    /// The current salt; a caller asking the randomness source for entropy
    /// seeds it with this.
    pub fn nonce(&self) -> (r: u8)
        ensures
            r == self.spec_nonce(),
    {
        self.nonce
    }

    /// The configured base price.
    pub fn base_price(&self) -> (r: u64)
        ensures
            r == self.spec_base_price(),
    {
        self.base_price
    }

    /// The event log, oldest first.
    pub fn events(&self) -> (r: &Vec<Event>)
        ensures
            r@ == self.spec_events(),
    {
        &self.events
    }

    /// Mint `new_kitty` under `kitty_id` and hand it to `to`: insert it into
    /// the token store and the directory, append it to the global registry and
    /// to `to`'s ledger, and record both positions. Refused when the identifier
    /// is already taken or a ledger position would wrap; a refusal changes
    /// nothing.
    pub fn mint(&mut self, to: u64, kitty_id: u64, new_kitty: Kitty) -> (r: Result<(), Error>)
        requires
            old(self).wf(),
        ensures
            final(self).wf(),
            r == Ok::<(), Error>(()) <==> !old(self).minted(kitty_id) && old(self).all_seq().len()
                < u64::MAX && old(self).owned_seq(to).len() < u64::MAX,
            r == Err::<(), Error>(Error::AlreadyExists) <==> old(self).minted(kitty_id),
            r == Err::<(), Error>(Error::Overflow) <==> !old(self).minted(kitty_id) && (old(
                self,
            ).all_seq().len() == u64::MAX || old(self).owned_seq(to).len() == u64::MAX),
            r is Err ==> *final(self) == *old(self),
            r is Ok ==> {
                &&& final(self).spec_kitty(kitty_id) == Some(new_kitty)
                &&& forall|id: u64|
                    id != kitty_id ==> final(self).spec_kitty(id) == old(self).spec_kitty(id)
                &&& final(self).spec_owner_of(kitty_id) == Some(to)
                &&& forall|id: u64|
                    id != kitty_id ==> final(self).spec_owner_of(id) == old(self).spec_owner_of(id)
                &&& final(self).all_seq() == old(self).all_seq().push(kitty_id)
                &&& final(self).owned_seq(to) == old(self).owned_seq(to).push(kitty_id)
                &&& forall|o: u64| o != to ==> final(self).owned_seq(o) == old(self).owned_seq(o)
                &&& final(self).spec_global_index_of(kitty_id) == old(self).all_seq().len()
                &&& final(self).spec_owned_index_of(kitty_id) == old(self).owned_seq(to).len()
                &&& final(self).spec_kitty_by_index(old(self).all_seq().len() as u64) == Some(
                    kitty_id,
                )
                &&& final(self).spec_kitty_of_owner(to, old(self).owned_seq(to).len() as u64)
                    == Some(kitty_id)
                &&& final(self).spec_events() == old(self).spec_events().push(
                    Event::Created(to, kitty_id),
                )
                &&& final(self).spec_kitty_count() == old(self).spec_kitty_count()
                &&& final(self).spec_nonce() == old(self).spec_nonce()
                &&& final(self).spec_base_price() == old(self).spec_base_price()
            },
    {
        if self.kitties.contains_key(&kitty_id) {
            return Err(Error::AlreadyExists);
        }
        let all_count = self.all_kitties.len() as u64;
        if all_count == u64::MAX {
            return Err(Error::Overflow);
        }
        let owned_count = self.owned_kitty_count(to);
        if owned_count == u64::MAX {
            return Err(Error::Overflow);
        }
        self.kitties.insert(kitty_id, new_kitty);
        self.kitty_owner.insert(kitty_id, to);
        self.all_kitties.push(kitty_id);
        self.all_kitties_index.insert(kitty_id, all_count);
        let mut owned = match self.owned_kitties.remove(&to) {
            Some(v) => v,
            None => Vec::new(),
        };
        owned.push(kitty_id);
        self.owned_kitties.insert(to, owned);
        self.owned_kitties_index.insert(kitty_id, owned_count);
        self.events.push(Event::Created(to, kitty_id));
        proof {
            let pre = *old(self);
            let post = *self;
            assert(post.owned_seq(to) == pre.owned_seq(to).push(kitty_id));
            assert forall|o: u64| o != to implies post.owned_seq(o) == pre.owned_seq(o) by {
                assert(post.owned_kitties@.contains_key(o) == pre.owned_kitties@.contains_key(o));
                if pre.owned_kitties@.contains_key(o) {
                    assert(post.owned_kitties@[o] == pre.owned_kitties@[o]);
                }
            }
            assert(post.kitty_owner@.dom() =~= post.kitties@.dom());
            assert(post.all_kitties_index@.dom() =~= post.kitties@.dom());
            assert(post.owned_kitties_index@.dom() =~= post.kitties@.dom());
            assert forall|i: int| 0 <= i < post.all_kitties@.len() implies post.kitties@.contains_key(
                #[trigger] post.all_kitties@[i],
            ) && post.all_kitties_index@[post.all_kitties@[i]] as int == i by {
                if i < pre.all_kitties@.len() {
                    assert(post.all_kitties@[i] == pre.all_kitties@[i]);
                    assert(pre.kitties@.contains_key(pre.all_kitties@[i]));
                    assert(pre.all_kitties@[i] != kitty_id);
                } else {
                    assert(post.all_kitties@[i] == kitty_id);
                }
            }
            assert forall|id: u64| #[trigger] post.kitties@.contains_key(id) implies {
                &&& post.all_kitties_index@[id] < post.all_kitties@.len()
                &&& post.all_kitties@[post.all_kitties_index@[id] as int] == id
            } by {
                if id != kitty_id {
                    assert(pre.kitties@.contains_key(id));
                    assert(pre.all_kitties@[pre.all_kitties_index@[id] as int] == id);
                    assert(post.all_kitties@[post.all_kitties_index@[id] as int] == id);
                }
            }
            assert forall|id: u64| #[trigger] post.kitty_owner@.contains_key(id) implies {
                &&& post.owned_kitties_index@[id] < post.owned_seq(post.kitty_owner@[id]).len()
                &&& post.owned_seq(post.kitty_owner@[id])[post.owned_kitties_index@[id] as int]
                    == id
            } by {
                if id != kitty_id {
                    assert(pre.kitty_owner@.contains_key(id));
                    let o = pre.kitty_owner@[id];
                    assert(pre.owned_seq(o)[pre.owned_kitties_index@[id] as int] == id);
                    if o == to {
                        assert(post.owned_seq(o)[post.owned_kitties_index@[id] as int] == id);
                    }
                }
            }
            assert forall|o: u64, j: int| 0 <= j < post.owned_seq(o).len() implies {
                let id = #[trigger] post.owned_seq(o)[j];
                &&& post.kitties@.contains_key(id)
                &&& post.kitty_owner@.contains_key(id)
                &&& post.kitty_owner@[id] == o
                &&& post.owned_kitties_index@[id] as int == j
            } by {
                if o == to && j == pre.owned_seq(to).len() {
                    assert(post.owned_seq(o)[j] == kitty_id);
                } else {
                    assert(post.owned_seq(o)[j] == pre.owned_seq(o)[j]);
                    assert(pre.kitties@.contains_key(pre.owned_seq(o)[j]));
                    assert(pre.owned_seq(o)[j] != kitty_id);
                }
            }
            assert(post.wf());
        }
        Ok(())
    }

    /// Move token `kitty_id` from `from`'s ledger to `to`'s: swap-and-pop the
    /// token out of the sender's ledger (the sender's last token moves into
    /// the vacated slot), append it to the receiver's ledger, and point the
    /// directory and the reverse lookup at the new place. Transferring a token
    /// to its own owner moves it to the end of that owner's ledger. A refusal
    /// changes nothing.
    pub fn transfer_from(&mut self, from: u64, to: u64, kitty_id: u64) -> (r: Result<(), Error>)
        requires
            old(self).wf(),
        ensures
            final(self).wf(),
            r == Err::<(), Error>(Error::NotFound) <==> !old(self).minted(kitty_id),
            r == Err::<(), Error>(Error::NotOwner) <==> old(self).minted(kitty_id) && old(
                self,
            ).spec_owner_of(kitty_id) != Some(from),
            r == Err::<(), Error>(Error::Overflow) <==> old(self).minted(kitty_id) && old(
                self,
            ).spec_owner_of(kitty_id) == Some(from) && old(self).owned_seq(to).len() == u64::MAX,
            r == Ok::<(), Error>(()) <==> old(self).minted(kitty_id) && old(self).spec_owner_of(
                kitty_id,
            ) == Some(from) && old(self).owned_seq(to).len() < u64::MAX,
            r is Err ==> *final(self) == *old(self),
            r is Ok ==> {
                let p = old(self).spec_owned_index_of(kitty_id) as int;
                &&& final(self).spec_owner_of(kitty_id) == Some(to)
                &&& forall|id: u64|
                    id != kitty_id ==> final(self).spec_owner_of(id) == old(self).spec_owner_of(id)
                &&& forall|id: u64| final(self).spec_kitty(id) == old(self).spec_kitty(id)
                &&& final(self).all_seq() == old(self).all_seq()
                &&& forall|id: u64|
                    final(self).spec_global_index_of(id) == old(self).spec_global_index_of(id)
                &&& from != to ==> final(self).owned_seq(from) == swap_removed(
                    old(self).owned_seq(from),
                    p,
                )
                &&& from != to ==> final(self).owned_seq(to) == old(self).owned_seq(to).push(
                    kitty_id,
                )
                &&& from == to ==> final(self).owned_seq(from) == swap_removed(
                    old(self).owned_seq(from),
                    p,
                ).push(kitty_id)
                &&& forall|o: u64|
                    o != from && o != to ==> final(self).owned_seq(o) == old(self).owned_seq(o)
                &&& final(self).spec_owned_index_of(kitty_id) as int == final(self).owned_seq(
                    to,
                ).len() - 1
                &&& final(self).spec_events() == old(self).spec_events().push(
                    Event::Transferred(from, to, kitty_id),
                )
                &&& final(self).spec_kitty_count() == old(self).spec_kitty_count()
                &&& final(self).spec_nonce() == old(self).spec_nonce()
                &&& final(self).spec_base_price() == old(self).spec_base_price()
            },
    {
        if !self.kitties.contains_key(&kitty_id) {
            return Err(Error::NotFound);
        }
        proof {
            assert(old(self).kitty_owner@.contains_key(kitty_id));
        }
        let owner = *self.kitty_owner.get(&kitty_id).unwrap();
        if owner != from {
            return Err(Error::NotOwner);
        }
        let to_count = self.owned_kitty_count(to);
        if to_count == u64::MAX {
            return Err(Error::Overflow);
        }
        proof {
            assert(old(self).owned_seq(from).len() > 0);
        }
        // Swap-and-pop removal from the sender's ledger.
        let mut from_vec = self.owned_kitties.remove(&from).unwrap();
        let pos64 = *self.owned_kitties_index.get(&kitty_id).unwrap();
        let pos = pos64 as usize;
        let last_pos = from_vec.len() - 1;
        let ghost last_id = old(self).owned_seq(from).last();
        let removed = from_vec.swap_remove(pos);
        proof {
            assert(removed == kitty_id);
        }
        if pos != last_pos {
            // The sender's last token now sits in the vacated slot; point its
            // reverse lookup there.
            let moved_id = from_vec[pos];
            self.owned_kitties_index.insert(moved_id, pos64);
        }
        self.owned_kitties.insert(from, from_vec);
        // Append to the receiver's ledger.
        let mut to_vec = match self.owned_kitties.remove(&to) {
            Some(v) => v,
            None => Vec::new(),
        };
        let new_pos = to_vec.len() as u64;
        to_vec.push(kitty_id);
        self.owned_kitties.insert(to, to_vec);
        self.kitty_owner.insert(kitty_id, to);
        self.owned_kitties_index.insert(kitty_id, new_pos);
        self.events.push(Event::Transferred(from, to, kitty_id));
        proof {
            let pre = *old(self);
            let post = *self;
            let p = pre.owned_kitties_index@[kitty_id] as int;
            let s = pre.owned_seq(from);
            let lp = s.len() - 1;
            assert(s[p] == kitty_id);
            assert(s[lp] == last_id);
            // Distinct positions of one ledger hold distinct tokens.
            assert(p != lp ==> last_id != kitty_id) by {
                if s[lp] == s[p] {
                    assert(pre.owned_kitties_index@[s[lp]] as int == lp);
                    assert(pre.owned_kitties_index@[s[p]] as int == p);
                }
            }
            if p != lp {
                assert(pre.kitty_owner@.contains_key(last_id) && pre.kitty_owner@[last_id] == from
                    && pre.kitties@.contains_key(last_id));
            }
            if from != to {
                assert(post.owned_seq(from) == swap_removed(s, p));
                assert(post.owned_seq(to) == pre.owned_seq(to).push(kitty_id));
            } else {
                assert(post.owned_seq(from) == swap_removed(s, p).push(kitty_id));
            }
            assert forall|o: u64| o != from && o != to implies post.owned_seq(o) == pre.owned_seq(
                o,
            ) by {
                assert(post.owned_kitties@.contains_key(o) == pre.owned_kitties@.contains_key(o));
                if pre.owned_kitties@.contains_key(o) {
                    assert(post.owned_kitties@[o] == pre.owned_kitties@[o]);
                }
            }
            assert(post.kitty_owner@.dom() =~= post.kitties@.dom());
            assert(post.all_kitties_index@.dom() =~= post.kitties@.dom());
            assert(post.owned_kitties_index@.dom() =~= post.kitties@.dom());
            assert forall|i: int| 0 <= i < post.all_kitties@.len() implies post.kitties@.contains_key(
                #[trigger] post.all_kitties@[i],
            ) && post.all_kitties_index@[post.all_kitties@[i]] as int == i by {
                assert(pre.kitties@.contains_key(pre.all_kitties@[i]));
            }
            assert forall|id: u64| #[trigger] post.kitties@.contains_key(id) implies {
                &&& post.all_kitties_index@[id] < post.all_kitties@.len()
                &&& post.all_kitties@[post.all_kitties_index@[id] as int] == id
            } by {
                assert(pre.kitties@.contains_key(id));
            }
            assert forall|id: u64| #[trigger] post.kitty_owner@.contains_key(id) implies {
                &&& post.owned_kitties_index@[id] < post.owned_seq(post.kitty_owner@[id]).len()
                &&& post.owned_seq(post.kitty_owner@[id])[post.owned_kitties_index@[id] as int]
                    == id
            } by {
                if id == kitty_id {
                    assert(post.kitty_owner@[id] == to);
                    assert(post.owned_seq(to).last() == kitty_id);
                } else if p != lp && id == last_id {
                    assert(post.kitty_owner@[id] == from);
                    assert(post.owned_kitties_index@[id] as int == p);
                    assert(post.owned_seq(from)[p] == last_id);
                } else {
                    assert(pre.kitty_owner@.contains_key(id));
                    let o = pre.kitty_owner@[id];
                    let j = pre.owned_kitties_index@[id] as int;
                    assert(pre.owned_seq(o)[j] == id);
                    assert(post.kitty_owner@[id] == o);
                    assert(post.owned_kitties_index@[id] as int == j);
                    if o == from {
                        // id is neither the moved token nor the sender's old
                        // last token, so its slot is untouched.
                        assert(j != p);
                        assert(s[lp] == last_id);
                        assert(j != lp);
                        assert(post.owned_seq(o)[j] == id);
                    } else if o == to {
                        assert(post.owned_seq(o)[j] == id);
                    } else {
                        assert(post.owned_seq(o) == pre.owned_seq(o));
                    }
                }
            }
            assert forall|o: u64, j: int| 0 <= j < post.owned_seq(o).len() implies {
                let id = #[trigger] post.owned_seq(o)[j];
                &&& post.kitties@.contains_key(id)
                &&& post.kitty_owner@.contains_key(id)
                &&& post.kitty_owner@[id] == o
                &&& post.owned_kitties_index@[id] as int == j
            } by {
                let id = post.owned_seq(o)[j];
                if o == to && j == post.owned_seq(to).len() - 1 {
                    assert(id == kitty_id);
                } else if o == from && p != lp && j == p {
                    assert(id == last_id);
                    assert(post.kitty_owner@[last_id] == from);
                    assert(post.owned_kitties_index@[last_id] as int == p);
                } else {
                    // Any other slot is carried over from the old ledgers.
                    assert(pre.owned_seq(o)[j] == id);
                    assert(pre.kitty_owner@[id] == o);
                    assert(pre.owned_kitties_index@[id] as int == j);
                    if id == kitty_id {
                        assert(o == from && j == p);
                        assert(false);
                    }
                    if p != lp && id == last_id {
                        assert(o == from && j == lp);
                        assert(false);
                    }
                }
            }
            assert(post.wf());
        }
        Ok(())
    }

    /// Set the price of token `kitty_id`, which only its current owner may do.
    /// No ledger structure moves; a refusal changes nothing.
    pub fn set_price(&mut self, sender: u64, kitty_id: u64, new_price: u64) -> (r: Result<
        (),
        Error,
    >)
        requires
            old(self).wf(),
        ensures
            final(self).wf(),
            r == Err::<(), Error>(Error::NotFound) <==> !old(self).minted(kitty_id),
            r == Err::<(), Error>(Error::NotOwner) <==> old(self).minted(kitty_id) && old(
                self,
            ).spec_owner_of(kitty_id) != Some(sender),
            r == Ok::<(), Error>(()) <==> old(self).minted(kitty_id) && old(self).spec_owner_of(
                kitty_id,
            ) == Some(sender),
            r is Err ==> *final(self) == *old(self),
            r is Ok ==> {
                &&& final(self).spec_kitty(kitty_id) == Some(
                    old(self).spec_kitty(kitty_id).unwrap().spec_with_price(new_price),
                )
                &&& forall|id: u64|
                    id != kitty_id ==> final(self).spec_kitty(id) == old(self).spec_kitty(id)
                &&& forall|id: u64| final(self).spec_owner_of(id) == old(self).spec_owner_of(id)
                &&& forall|o: u64| final(self).owned_seq(o) == old(self).owned_seq(o)
                &&& final(self).all_seq() == old(self).all_seq()
                &&& forall|id: u64|
                    final(self).spec_global_index_of(id) == old(self).spec_global_index_of(id)
                &&& forall|id: u64|
                    final(self).spec_owned_index_of(id) == old(self).spec_owned_index_of(id)
                &&& final(self).spec_events() == old(self).spec_events().push(
                    Event::PriceSet(sender, kitty_id, new_price),
                )
                &&& final(self).spec_kitty_count() == old(self).spec_kitty_count()
                &&& final(self).spec_nonce() == old(self).spec_nonce()
                &&& final(self).spec_base_price() == old(self).spec_base_price()
            },
    {
        if !self.kitties.contains_key(&kitty_id) {
            return Err(Error::NotFound);
        }
        proof {
            assert(old(self).kitty_owner@.contains_key(kitty_id));
        }
        let owner = *self.kitty_owner.get(&kitty_id).unwrap();
        if owner != sender {
            return Err(Error::NotOwner);
        }
        let k = *self.kitties.get(&kitty_id).unwrap();
        let updated = Kitty { id: k.id, dna: k.dna, price: new_price, gen: k.gen, number: k.number };
        self.kitties.insert(kitty_id, updated);
        self.events.push(Event::PriceSet(owner, kitty_id, new_price));
        proof {
            assert(self.kitties@.dom() =~= old(self).kitties@.dom());
            lemma_wf_preserved_by_record_update(*old(self), *self);
        }
        Ok(())
    }

    /// Transfer token `kitty_id` from `sender` to `to`; only the current owner
    /// may send. A refusal changes nothing.
    pub fn transfer(&mut self, sender: u64, to: u64, kitty_id: u64) -> (r: Result<(), Error>)
        requires
            old(self).wf(),
        ensures
            final(self).wf(),
            r == Err::<(), Error>(Error::NotFound) <==> !old(self).minted(kitty_id),
            r == Err::<(), Error>(Error::NotOwner) <==> old(self).minted(kitty_id) && old(
                self,
            ).spec_owner_of(kitty_id) != Some(sender),
            r == Err::<(), Error>(Error::Overflow) <==> old(self).minted(kitty_id) && old(
                self,
            ).spec_owner_of(kitty_id) == Some(sender) && old(self).owned_seq(to).len() == u64::MAX,
            r == Ok::<(), Error>(()) <==> old(self).minted(kitty_id) && old(self).spec_owner_of(
                kitty_id,
            ) == Some(sender) && old(self).owned_seq(to).len() < u64::MAX,
            r is Err ==> *final(self) == *old(self),
            r is Ok ==> {
                let p = old(self).spec_owned_index_of(kitty_id) as int;
                &&& final(self).spec_owner_of(kitty_id) == Some(to)
                &&& forall|id: u64|
                    id != kitty_id ==> final(self).spec_owner_of(id) == old(self).spec_owner_of(id)
                &&& forall|id: u64| final(self).spec_kitty(id) == old(self).spec_kitty(id)
                &&& final(self).all_seq() == old(self).all_seq()
                &&& sender != to ==> final(self).owned_seq(sender) == swap_removed(
                    old(self).owned_seq(sender),
                    p,
                )
                &&& sender != to ==> final(self).owned_seq(to) == old(self).owned_seq(to).push(
                    kitty_id,
                )
                &&& sender == to ==> final(self).owned_seq(sender) == swap_removed(
                    old(self).owned_seq(sender),
                    p,
                ).push(kitty_id)
                &&& forall|o: u64|
                    o != sender && o != to ==> final(self).owned_seq(o) == old(self).owned_seq(o)
                &&& final(self).spec_events() == old(self).spec_events().push(
                    Event::Transferred(sender, to, kitty_id),
                )
                &&& final(self).spec_kitty_count() == old(self).spec_kitty_count()
                &&& final(self).spec_nonce() == old(self).spec_nonce()
                &&& final(self).spec_base_price() == old(self).spec_base_price()
            },
    {
        match self.owner_of_kitty(kitty_id) {
            None => Err(Error::NotFound),
            Some(owner) => {
                if owner != sender {
                    return Err(Error::NotOwner);
                }
                self.transfer_from(sender, to, kitty_id)
            },
        }
    }

    /// Exactly what `buy_kitty` returns, decided by the registry and the
    /// balances alone.
    pub open spec fn spec_buy_result(
        self,
        balances: Balances,
        sender: u64,
        kitty_id: u64,
        max_price: u64,
    ) -> Result<(), Error> {
        if !self.minted(kitty_id) {
            Err(Error::NotFound)
        } else if self.spec_owner_of(kitty_id) == Some(sender) {
            Err(Error::AlreadyOwner)
        } else if self.spec_kitty(kitty_id).unwrap().price > max_price {
            Err(Error::PriceTooHigh)
        } else if self.owned_seq(sender).len() == u64::MAX {
            Err(Error::Overflow)
        } else {
            match balances.spec_transfer_result(
                sender,
                self.spec_owner_of(kitty_id).unwrap(),
                self.spec_kitty(kitty_id).unwrap().price,
                true,
            ) {
                Err(e) => Err(Error::PaymentFailed(e)),
                Ok(()) => Ok(()),
            }
        }
    }

    /// Buy token `kitty_id` for its asking price, which must not exceed
    /// `max_price`: pay the seller through `balances` (keeping the buyer
    /// alive), move the token to the buyer, and reset its price to the base
    /// price. The ownership checks run before the payment, so the transfer
    /// after a successful payment cannot fail; any refusal leaves both the
    /// registry and the balances exactly as they were.
    pub fn buy_kitty(
        &mut self,
        balances: &mut Balances,
        sender: u64,
        kitty_id: u64,
        max_price: u64,
    ) -> (r: Result<(), Error>)
        requires
            old(self).wf(),
        ensures
            final(self).wf(),
            r == old(self).spec_buy_result(*old(balances), sender, kitty_id, max_price),
            final(balances).spec_min_balance() == old(balances).spec_min_balance(),
            r is Err ==> *final(self) == *old(self) && *final(balances) == *old(balances),
            r is Ok ==> {
                let seller = old(self).spec_owner_of(kitty_id).unwrap();
                let price = old(self).spec_kitty(kitty_id).unwrap().price;
                let p = old(self).spec_owned_index_of(kitty_id) as int;
                &&& final(self).spec_owner_of(kitty_id) == Some(sender)
                &&& forall|id: u64|
                    id != kitty_id ==> final(self).spec_owner_of(id) == old(self).spec_owner_of(id)
                &&& final(self).spec_kitty(kitty_id) == Some(
                    old(self).spec_kitty(kitty_id).unwrap().spec_with_price(
                        old(self).spec_base_price(),
                    ),
                )
                &&& forall|id: u64|
                    id != kitty_id ==> final(self).spec_kitty(id) == old(self).spec_kitty(id)
                &&& final(self).owned_seq(seller) == swap_removed(old(self).owned_seq(seller), p)
                &&& final(self).owned_seq(sender) == old(self).owned_seq(sender).push(kitty_id)
                &&& forall|o: u64|
                    o != seller && o != sender ==> final(self).owned_seq(o) == old(self).owned_seq(
                        o,
                    )
                &&& final(self).all_seq() == old(self).all_seq()
                &&& final(self).spec_events() == old(self).spec_events().push(
                    Event::Transferred(seller, sender, kitty_id),
                ).push(Event::Bought(sender, seller, kitty_id, price))
                &&& final(self).spec_kitty_count() == old(self).spec_kitty_count()
                &&& final(self).spec_nonce() == old(self).spec_nonce()
                &&& final(self).spec_base_price() == old(self).spec_base_price()
                &&& final(balances).spec_balance_of(sender) == old(balances).spec_balance_of(sender)
                    - price
                &&& final(balances).spec_balance_of(seller) == old(balances).spec_balance_of(seller)
                    + price
                &&& forall|a: u64|
                    a != sender && a != seller ==> final(balances).spec_balance_of(a) == old(
                        balances,
                    ).spec_balance_of(a)
            },
    {
        if !self.kitties.contains_key(&kitty_id) {
            return Err(Error::NotFound);
        }
        proof {
            assert(old(self).kitty_owner@.contains_key(kitty_id));
        }
        let owner = *self.kitty_owner.get(&kitty_id).unwrap();
        if owner == sender {
            return Err(Error::AlreadyOwner);
        }
        let kitty = *self.kitties.get(&kitty_id).unwrap();
        let kitty_price = kitty.price;
        if kitty_price > max_price {
            return Err(Error::PriceTooHigh);
        }
        let sender_count = self.owned_kitty_count(sender);
        if sender_count == u64::MAX {
            return Err(Error::Overflow);
        }
        match balances.transfer(sender, owner, kitty_price, true) {
            Err(e) => {
                return Err(Error::PaymentFailed(e));
            },
            Ok(()) => {},
        }
        // The checks above are the transfer's preconditions, so it succeeds.
        match self.transfer_from(owner, sender, kitty_id) {
            Ok(()) => {},
            Err(e) => {
                proof {
                    assert(false);
                }
                return Err(e);
            },
        }
        let updated = Kitty {
            id: kitty.id,
            dna: kitty.dna,
            price: self.base_price,
            gen: kitty.gen,
            number: kitty.number,
        };
        let ghost mid = *self;
        self.kitties.insert(kitty_id, updated);
        self.events.push(Event::Bought(sender, owner, kitty_id, kitty_price));
        proof {
            assert(self.kitties@.dom() =~= mid.kitties@.dom());
            lemma_wf_preserved_by_record_update(mid, *self);
        }
        Ok(())
    }

    /// Create a token for `sender`: its identifier and genome are
    /// `random_hash`, the entropy the caller drew from the randomness source
    /// seeded with the current nonce; it is priced at the base price and
    /// carries the next sequence number. On success the sequence counter and
    /// the nonce step forward. A refusal changes nothing.
    pub fn create_kitty(&mut self, sender: u64, random_hash: u64) -> (r: Result<(), Error>)
        requires
            old(self).wf(),
        ensures
            final(self).wf(),
            r == Err::<(), Error>(Error::Overflow) <==> old(self).spec_kitty_count() == u32::MAX
                || (!old(self).minted(random_hash) && (old(self).all_seq().len() == u64::MAX || old(
                self,
            ).owned_seq(sender).len() == u64::MAX)),
            r == Err::<(), Error>(Error::AlreadyExists) <==> old(self).spec_kitty_count()
                < u32::MAX && old(self).minted(random_hash),
            r == Ok::<(), Error>(()) <==> old(self).spec_kitty_count() < u32::MAX && !old(
                self,
            ).minted(random_hash) && old(self).all_seq().len() < u64::MAX && old(self).owned_seq(
                sender,
            ).len() < u64::MAX,
            r is Err ==> *final(self) == *old(self),
            r is Ok ==> {
                &&& final(self).spec_kitty(random_hash) == Some(
                    fresh_kitty(
                        random_hash,
                        old(self).spec_base_price(),
                        old(self).spec_kitty_count(),
                    ),
                )
                &&& forall|id: u64|
                    id != random_hash ==> final(self).spec_kitty(id) == old(self).spec_kitty(id)
                &&& final(self).spec_owner_of(random_hash) == Some(sender)
                &&& forall|id: u64|
                    id != random_hash ==> final(self).spec_owner_of(id) == old(self).spec_owner_of(
                        id,
                    )
                &&& final(self).all_seq() == old(self).all_seq().push(random_hash)
                &&& final(self).owned_seq(sender) == old(self).owned_seq(sender).push(random_hash)
                &&& forall|o: u64|
                    o != sender ==> final(self).owned_seq(o) == old(self).owned_seq(o)
                &&& final(self).spec_events() == old(self).spec_events().push(
                    Event::Created(sender, random_hash),
                )
                &&& final(self).spec_kitty_count() == old(self).spec_kitty_count() + 1
                &&& final(self).spec_nonce() == next_nonce(old(self).spec_nonce())
                &&& final(self).spec_base_price() == old(self).spec_base_price()
            },
    {
        if self.kitty_count == u32::MAX {
            return Err(Error::Overflow);
        }
        let number = self.kitty_count;
        let new_kitty = Kitty {
            id: random_hash,
            dna: random_hash,
            price: self.base_price,
            gen: 0,
            number,
        };
        match self.mint(sender, random_hash, new_kitty) {
            Err(e) => Err(e),
            Ok(()) => {
                let ghost mid = *self;
                self.kitty_count = number + 1;
                self.nonce = if self.nonce == u8::MAX {
                    0
                } else {
                    self.nonce + 1
                };
                proof {
                    assert forall|id: u64| #[trigger] self.spec_kitty(id) == mid.spec_kitty(
                        id,
                    ) by {}
                    assert forall|id: u64| #[trigger] self.spec_owner_of(id) == mid.spec_owner_of(
                        id,
                    ) by {}
                    assert forall|o: u64| #[trigger] self.owned_seq(o) == mid.owned_seq(o) by {}
                    lemma_wf_preserved_by_record_update(mid, *self);
                }
                Ok(())
            },
        }
    }

    /// The set of tokens the ownership directory assigns to owner `o`.
    pub open spec fn spec_owned_by(self, o: u64) -> Set<u64> {
        Set::new(|id: u64| self.spec_owner_of(id) == Some(o))
    }

    /// The set of all minted tokens.
    pub open spec fn spec_minted(self) -> Set<u64> {
        Set::new(|id: u64| self.minted(id))
    }

    /// Placement consistency, existence half: a minted token stands in the
    /// ledger of the owner the directory names, at the position the reverse
    /// lookup records, and in the global registry likewise.
    pub proof fn lemma_placement(self, id: u64)
        requires
            self.wf(),
            self.minted(id),
        ensures
            self.spec_owner_of(id) is Some,
            self.spec_owned_index_of(id) < self.owned_seq(self.spec_owner_of(id).unwrap()).len(),
            self.owned_seq(self.spec_owner_of(id).unwrap())[self.spec_owned_index_of(id) as int]
                == id,
            self.spec_global_index_of(id) < self.all_seq().len(),
            self.all_seq()[self.spec_global_index_of(id) as int] == id,
    {
        assert(self.kitties@.contains_key(id));
        assert(self.kitty_owner@.contains_key(id));
    }

    /// Placement consistency, uniqueness half: one token cannot stand at two
    /// ledger slots, whether of one owner or of two; the slot it holds belongs
    /// to the owner the directory names.
    pub proof fn lemma_placement_unique(self, o1: u64, j1: int, o2: u64, j2: int)
        requires
            self.wf(),
            0 <= j1 < self.owned_seq(o1).len(),
            0 <= j2 < self.owned_seq(o2).len(),
            self.owned_seq(o1)[j1] == self.owned_seq(o2)[j2],
        ensures
            o1 == o2,
            j1 == j2,
            self.spec_owner_of(self.owned_seq(o1)[j1]) == Some(o1),
    {
        assert(self.owned_kitties_index@[self.owned_seq(o1)[j1]] as int == j1);
        assert(self.owned_kitties_index@[self.owned_seq(o2)[j2]] as int == j2);
    }

    /// A token appears at most once in the global registry.
    pub proof fn lemma_registry_unique(self, i1: int, i2: int)
        requires
            self.wf(),
            0 <= i1 < self.all_seq().len(),
            0 <= i2 < self.all_seq().len(),
            self.all_seq()[i1] == self.all_seq()[i2],
        ensures
            i1 == i2,
    {
        assert(self.all_kitties_index@[self.all_seq()[i1]] as int == i1);
        assert(self.all_kitties_index@[self.all_seq()[i2]] as int == i2);
    }

    /// Count consistency: an owner's ledger count equals the number of tokens
    /// the ownership directory assigns to that owner.
    pub proof fn lemma_count_consistency(self, o: u64)
        requires
            self.wf(),
        ensures
            self.spec_owned_by(o).finite(),
            self.spec_owned_by(o).len() == self.owned_seq(o).len(),
    {
        broadcast use vstd::seq_lib::seq_to_set_is_finite;

        let s = self.owned_seq(o);
        assert(s.no_duplicates()) by {
            assert forall|j1: int, j2: int|
                0 <= j1 < s.len() && 0 <= j2 < s.len() && j1 != j2 implies s[j1] != s[j2] by {
                assert(self.owned_kitties_index@[s[j1]] as int == j1);
                assert(self.owned_kitties_index@[s[j2]] as int == j2);
            }
        }
        s.unique_seq_to_set();
        assert(s.to_set() =~= self.spec_owned_by(o)) by {
            assert forall|id: u64| s.to_set().contains(id) implies self.spec_owned_by(o).contains(
                id,
            ) by {
                assert(s.contains(id));
                let j = choose|j: int| 0 <= j < s.len() && s[j] == id;
                assert(s[j] == id);
            }
            assert forall|id: u64| self.spec_owned_by(o).contains(id) implies s.to_set().contains(
                id,
            ) by {
                assert(self.kitty_owner@.contains_key(id));
                let j = self.owned_kitties_index@[id] as int;
                assert(s[j] == id);
                assert(s.contains(id));
            }
        }
    }

    /// Supply consistency: the total supply the global registry reports equals
    /// the number of minted tokens, each of which appears in the registry
    /// exactly once.
    pub proof fn lemma_supply_consistency(self)
        requires
            self.wf(),
        ensures
            self.spec_minted().finite(),
            self.spec_minted().len() == self.all_seq().len(),
    {
        broadcast use vstd::seq_lib::seq_to_set_is_finite;

        let s = self.all_seq();
        assert(s.no_duplicates()) by {
            assert forall|i1: int, i2: int|
                0 <= i1 < s.len() && 0 <= i2 < s.len() && i1 != i2 implies s[i1] != s[i2] by {
                assert(self.all_kitties_index@[s[i1]] as int == i1);
                assert(self.all_kitties_index@[s[i2]] as int == i2);
            }
        }
        s.unique_seq_to_set();
        assert(s.to_set() =~= self.spec_minted()) by {
            assert forall|id: u64| s.to_set().contains(id) implies self.spec_minted().contains(
                id,
            ) by {
                assert(s.contains(id));
                let i = choose|i: int| 0 <= i < s.len() && s[i] == id;
                assert(s[i] == id);
            }
            assert forall|id: u64| self.spec_minted().contains(id) implies s.to_set().contains(
                id,
            ) by {
                assert(self.kitties@.contains_key(id));
                let i = self.all_kitties_index@[id] as int;
                assert(s[i] == id);
                assert(s.contains(id));
            }
        }
    }
}

} // verus!

//! The counter state machine.
//!
//! Storage is modelled as a map from 32-byte addresses to counter records.
//! A counter is either absent (its derived address is not in the map) or
//! present; `initialize` moves it from absent to present, and `increment`,
//! `decrement` and `reset` mutate a present counter after an authorization
//! check. Every operation either commits exactly its described effect or
//! fails with an error and leaves the store untouched.

use vstd::prelude::*;

use crate::pda::{found_pda, pda_at, try_find_pda, derive_pda_with_bump};

verus! {

broadcast use vstd::array::group_array_axioms;

/// The persisted counter record: the controlling authority, the current
/// count, and the witness byte recorded when the record was created.
#[derive(Clone, Copy, Debug, PartialEq, Eq)]
pub struct Counter {
    pub authority: [u8; 32],
    pub count: u64,
    pub bump: u8,
}

/// The mathematical image of a [`Counter`].
pub struct CounterView {
    pub authority: Seq<u8>,
    pub count: u64,
    pub bump: u8,
}

impl View for Counter {
    type V = CounterView;

    open spec fn view(&self) -> CounterView {
        CounterView { authority: self.authority@, count: self.count, bump: self.bump }
    }
}

/// Every way an operation can fail. A failed operation never changes the
/// store.
#[derive(Clone, Copy, Debug, PartialEq, Eq)]
pub enum ErrorCode {
    /// `increment` was called while the count sat at the largest value.
    Overflow,
    /// `decrement` was called while the count was zero.
    Underflow,
    /// The supplied address does not re-derive from the presented authority
    /// and the stored witness, or the stored authority differs from the
    /// presented one.
    Unauthorized,
    /// No witness byte yields a usable address for this authority.
    AddressDerivationExhausted,
    /// `initialize` found the derived address already occupied.
    AccountInUse,
    /// An update was asked of an address that holds no counter.
    AccountNotFound,
}

/// The execution context of `initialize`: the signing authority that will
/// control the new counter and fund its storage.
#[derive(Clone, Copy)]
pub struct Initialize {
    pub authority: [u8; 32],
}

/// The execution context of `increment`, `decrement` and `reset`: the
/// address of the counter account, and the signing authority presented as
/// its controller.
#[derive(Clone, Copy)]
pub struct Update {
    pub counter: [u8; 32],
    pub authority: [u8; 32],
}

/// The fixed domain-separation tag under which every counter address is
/// derived: the bytes of `"counter"`.
pub open spec fn counter_tag() -> Seq<u8> {
    seq![99u8, 111u8, 117u8, 110u8, 116u8, 101u8, 114u8]
}

/// The executable form of [`counter_tag`].
pub fn counter_seed() -> (r: Vec<u8>)
    ensures
        r@ == counter_tag(),
{
    let mut v: Vec<u8> = Vec::new();
    v.push(99u8);
    v.push(111u8);
    v.push(117u8);
    v.push(110u8);
    v.push(116u8);
    v.push(101u8);
    v.push(114u8);
    proof {
        assert(v@ =~= counter_tag());
    }
    v
}

/// Byte-for-byte equality of two 32-byte keys.
pub fn bytes32_eq(a: &[u8; 32], b: &[u8; 32]) -> (r: bool)
    ensures
        r == (a@ == b@),
{
    let mut i: usize = 0;
    while i < 32
        invariant
            0 <= i <= 32,
            forall|j: int| 0 <= j < i ==> a@[j] == b@[j],
        decreases 32 - i,
    {
        if a[i] != b[i] {
            return false;
        }
        i += 1;
    }
    proof {
        assert(a@ =~= b@);
    }
    true
}

/// The arithmetic guard of `increment`: checked addition of one.
pub fn checked_increment(count: u64) -> (r: Result<u64, ErrorCode>)
    ensures
        count < u64::MAX ==> r == Ok::<u64, ErrorCode>((count + 1) as u64),
        count == u64::MAX ==> r == Err::<u64, ErrorCode>(ErrorCode::Overflow),
{
    if count < u64::MAX {
        Ok(count + 1)
    } else {
        Err(ErrorCode::Overflow)
    }
}

/// The arithmetic guard of `decrement`: checked subtraction of one.
pub fn checked_decrement(count: u64) -> (r: Result<u64, ErrorCode>)
    ensures
        count > 0 ==> r == Ok::<u64, ErrorCode>((count - 1) as u64),
        count == 0 ==> r == Err::<u64, ErrorCode>(ErrorCode::Underflow),
{
    if count > 0 {
        Ok(count - 1)
    } else {
        Err(ErrorCode::Underflow)
    }
}

/// The authorization contract of every update: the supplied address must
/// re-derive from the fixed tag, the presented authority and the stored
/// witness, and the stored authority must equal the presented one.
pub open spec fn counter_authorized(c: CounterView, address: Seq<u8>, authority: Seq<u8>, program: Seq<u8>) -> bool {
    &&& pda_at(counter_tag(), authority, c.bump, program) == Some(address)
    &&& c.authority == authority
}

/// The executable authorization check, composed by every update operation.
pub fn authorize(counter: &Counter, address: &[u8; 32], authority: &[u8; 32], program: &[u8; 32]) -> (r: bool)
    ensures
        r == counter_authorized(counter@, address@, authority@, program@),
{
    let seed = counter_seed();
    match derive_pda_with_bump(seed.as_slice(), authority, counter.bump, program) {
        None => false,
        Some(derived) => {
            let address_ok = bytes32_eq(&derived, address);
            let authority_ok = bytes32_eq(&counter.authority, authority);
            address_ok && authority_ok
        },
    }
}

/// The storage image: one record per occupied address.
pub open spec fn map_of(entries: Seq<([u8; 32], Counter)>) -> Map<Seq<u8>, CounterView>
    decreases entries.len(),
{
    if entries.len() == 0 {
        Map::empty()
    } else {
        map_of(entries.drop_last()).insert(entries.last().0@, entries.last().1@)
    }
}

proof fn lemma_map_of_dom(entries: Seq<([u8; 32], Counter)>, key: Seq<u8>)
    ensures
        map_of(entries).dom().contains(key) <==> exists|i: int|
            0 <= i < entries.len() && entries[i].0@ == key,
    decreases entries.len(),
{
    if entries.len() > 0 {
        lemma_map_of_dom(entries.drop_last(), key);
        if entries.last().0@ == key {
            assert(entries[entries.len() - 1].0@ == key);
        } else if map_of(entries).dom().contains(key) {
            let i = choose|i: int|
                0 <= i < entries.drop_last().len() && entries.drop_last()[i].0@ == key;
            assert(entries[i].0@ == key);
        } else if exists|i: int| 0 <= i < entries.len() && entries[i].0@ == key {
            let i = choose|i: int| 0 <= i < entries.len() && entries[i].0@ == key;
            assert(entries.drop_last()[i].0@ == key);
        }
    }
}

proof fn lemma_map_of_value(entries: Seq<([u8; 32], Counter)>, i: int)
    requires
        0 <= i < entries.len(),
        forall|j: int, k: int| 0 <= j < k < entries.len() ==> entries[j].0@ != entries[k].0@,
    ensures
        map_of(entries).dom().contains(entries[i].0@),
        map_of(entries)[entries[i].0@] == entries[i].1@,
    decreases entries.len(),
{
    if i < entries.len() - 1 {
        lemma_map_of_value(entries.drop_last(), i);
        assert(entries.drop_last()[i] == entries[i]);
        assert(entries[i].0@ != entries.last().0@);
    }
}

proof fn lemma_map_of_push(entries: Seq<([u8; 32], Counter)>, e: ([u8; 32], Counter))
    ensures
        map_of(entries.push(e)) == map_of(entries).insert(e.0@, e.1@),
{
    assert(entries.push(e).drop_last() =~= entries);
    assert(entries.push(e).last() == e);
}

proof fn lemma_map_of_update(entries: Seq<([u8; 32], Counter)>, i: int, e: ([u8; 32], Counter))
    requires
        0 <= i < entries.len(),
        e.0@ == entries[i].0@,
        forall|j: int, k: int| 0 <= j < k < entries.len() ==> entries[j].0@ != entries[k].0@,
    ensures
        map_of(entries.update(i, e)) =~= map_of(entries).insert(e.0@, e.1@),
    decreases entries.len(),
{
    let u = entries.update(i, e);
    if i == entries.len() - 1 {
        assert(u.drop_last() =~= entries.drop_last());
        assert(u.last() == e);
    } else {
        assert(u.drop_last() =~= entries.drop_last().update(i, e));
        assert(entries.drop_last()[i] == entries[i]);
        lemma_map_of_update(entries.drop_last(), i, e);
        assert(u.last() == entries.last());
        assert(entries[i].0@ != entries.last().0@);
    }
}

/// The environment's storage, scoped to one program: the program's 32-byte
/// id and the occupied addresses with their records.
pub struct CounterStore {
    program: [u8; 32],
    accounts: Vec<([u8; 32], Counter)>,
}

impl View for CounterStore {
    type V = Map<Seq<u8>, CounterView>;

    closed spec fn view(&self) -> Map<Seq<u8>, CounterView> {
        map_of(self.accounts@)
    }
}

/// Every stored record re-derives its own address: the canonical witness
/// search for its authority yields exactly this address and the stored bump,
/// and the stored bump re-derives the address directly.
pub open spec fn store_inv(m: Map<Seq<u8>, CounterView>, program: Seq<u8>) -> bool {
    forall|a: Seq<u8>| #[trigger] m.dom().contains(a) ==> {
        &&& found_pda(counter_tag(), m[a].authority, program) == Some((a, m[a].bump))
        &&& pda_at(counter_tag(), m[a].authority, m[a].bump, program) == Some(a)
    }
}

impl CounterStore {
    /// The program id this store is scoped to.
    pub closed spec fn program_id(&self) -> Seq<u8> {
        self.program@
    }

    /// Well-formedness: occupied addresses are distinct, and each record
    /// carries the canonical witness for its authority.
    pub closed spec fn wf(&self) -> bool {
        &&& forall|j: int, k: int|
            0 <= j < k < self.accounts@.len() ==> self.accounts@[j].0@ != self.accounts@[k].0@
        &&& forall|i: int| 0 <= i < self.accounts@.len() ==> {
            &&& found_pda(counter_tag(), (#[trigger] self.accounts@[i]).1.authority@, self.program@)
                == Some((self.accounts@[i].0@, self.accounts@[i].1.bump))
            &&& pda_at(counter_tag(), self.accounts@[i].1.authority@, self.accounts@[i].1.bump, self.program@)
                == Some(self.accounts@[i].0@)
        }
    }

    /// An empty store for one program.
    pub fn new(program_id: [u8; 32]) -> (r: CounterStore)
        ensures
            r.wf(),
            r@ == Map::<Seq<u8>, CounterView>::empty(),
            r.program_id() == program_id@,
    {
        CounterStore { program: program_id, accounts: Vec::new() }
    }

    fn find_index(&self, address: &[u8; 32]) -> (r: Option<usize>)
        ensures
            match r {
                Some(i) => i < self.accounts@.len() && self.accounts@[i as int].0@ == address@,
                None => forall|i: int|
                    0 <= i < self.accounts@.len() ==> self.accounts@[i].0@ != address@,
            },
    {
        let n = self.accounts.len();
        let mut i: usize = 0;
        while i < n
            invariant
                n == self.accounts@.len(),
                0 <= i <= n,
                forall|j: int| 0 <= j < i ==> self.accounts@[j].0@ != address@,
            decreases n - i,
        {
            let entry = self.accounts[i];
            if bytes32_eq(&entry.0, address) {
                return Some(i);
            }
            i += 1;
        }
        None
    }

    /// Read the record stored at an address, if any.
    pub fn read(&self, address: &[u8; 32]) -> (r: Option<Counter>)
        requires
            self.wf(),
        ensures
            match r {
                Some(c) => self@.dom().contains(address@) && c@ == self@[address@],
                None => !self@.dom().contains(address@),
            },
    {
        proof {
            lemma_map_of_dom(self.accounts@, address@);
        }
        match self.find_index(address) {
            None => None,
            Some(i) => {
                proof {
                    lemma_map_of_value(self.accounts@, i as int);
                }
                let entry = self.accounts[i];
                Some(entry.1)
            },
        }
    }

    /// The address and witness under which a counter for this authority
    /// lives, or would live once created.
    pub fn derive_counter_address(&self, authority: &[u8; 32]) -> (r: Option<([u8; 32], u8)>)
        ensures
            match r {
                Some(p) => found_pda(counter_tag(), authority@, self.program_id())
                    == Some((p.0@, p.1)),
                None => found_pda(counter_tag(), authority@, self.program_id()) is None,
            },
    {
        let seed = counter_seed();
        try_find_pda(seed.as_slice(), authority, &self.program)
    }

    /// The well-formedness of the store implies the record-level invariant
    /// over its storage image.
    pub proof fn lemma_store_inv(&self)
        requires
            self.wf(),
        ensures
            store_inv(self@, self.program_id()),
    {
        assert forall|a: Seq<u8>| #[trigger] self@.dom().contains(a) implies {
            &&& found_pda(counter_tag(), self@[a].authority, self.program_id())
                == Some((a, self@[a].bump))
            &&& pda_at(counter_tag(), self@[a].authority, self@[a].bump, self.program_id())
                == Some(a)
        } by {
            lemma_map_of_dom(self.accounts@, a);
            let i = choose|i: int| 0 <= i < self.accounts@.len() && self.accounts@[i].0@ == a;
            lemma_map_of_value(self.accounts@, i);
        }
    }
}

/// What `initialize` does to the storage image: derive the canonical
/// address for the authority, fail if the search is exhausted or the
/// address is occupied, and otherwise place the new record there.
pub open spec fn spec_initialize(
    m: Map<Seq<u8>, CounterView>,
    program: Seq<u8>,
    authority: Seq<u8>,
    initial_count: u64,
) -> (Map<Seq<u8>, CounterView>, Result<(), ErrorCode>) {
    match found_pda(counter_tag(), authority, program) {
        None => (m, Err(ErrorCode::AddressDerivationExhausted)),
        Some(p) => {
            if m.dom().contains(p.0) {
                (m, Err(ErrorCode::AccountInUse))
            } else {
                (
                    m.insert(p.0, CounterView { authority, count: initial_count, bump: p.1 }),
                    Ok(()),
                )
            }
        },
    }
}

/// What `increment` does to the storage image.
pub open spec fn spec_increment(
    m: Map<Seq<u8>, CounterView>,
    program: Seq<u8>,
    address: Seq<u8>,
    authority: Seq<u8>,
) -> (Map<Seq<u8>, CounterView>, Result<(), ErrorCode>) {
    if !m.dom().contains(address) {
        (m, Err(ErrorCode::AccountNotFound))
    } else if !counter_authorized(m[address], address, authority, program) {
        (m, Err(ErrorCode::Unauthorized))
    } else if m[address].count == u64::MAX {
        (m, Err(ErrorCode::Overflow))
    } else {
        let c = m[address];
        (
            m.insert(address, CounterView { authority: c.authority, count: (c.count + 1) as u64, bump: c.bump }),
            Ok(()),
        )
    }
}

/// What `decrement` does to the storage image.
pub open spec fn spec_decrement(
    m: Map<Seq<u8>, CounterView>,
    program: Seq<u8>,
    address: Seq<u8>,
    authority: Seq<u8>,
) -> (Map<Seq<u8>, CounterView>, Result<(), ErrorCode>) {
    if !m.dom().contains(address) {
        (m, Err(ErrorCode::AccountNotFound))
    } else if !counter_authorized(m[address], address, authority, program) {
        (m, Err(ErrorCode::Unauthorized))
    } else if m[address].count == 0 {
        (m, Err(ErrorCode::Underflow))
    } else {
        let c = m[address];
        (
            m.insert(address, CounterView { authority: c.authority, count: (c.count - 1) as u64, bump: c.bump }),
            Ok(()),
        )
    }
}

/// What `reset` does to the storage image.
pub open spec fn spec_reset(
    m: Map<Seq<u8>, CounterView>,
    program: Seq<u8>,
    address: Seq<u8>,
    authority: Seq<u8>,
) -> (Map<Seq<u8>, CounterView>, Result<(), ErrorCode>) {
    if !m.dom().contains(address) {
        (m, Err(ErrorCode::AccountNotFound))
    } else if !counter_authorized(m[address], address, authority, program) {
        (m, Err(ErrorCode::Unauthorized))
    } else {
        let c = m[address];
        (
            m.insert(address, CounterView { authority: c.authority, count: 0u64, bump: c.bump }),
            Ok(()),
        )
    }
}

/// Create the counter for an authority at its derived address.
pub fn initialize(store: &mut CounterStore, ctx: Initialize, initial_count: u64) -> (r: Result<(), ErrorCode>)
    requires
        old(store).wf(),
    ensures
        final(store).wf(),
        final(store).program_id() == old(store).program_id(),
        final(store)@ == spec_initialize(old(store)@, old(store).program_id(), ctx.authority@, initial_count).0,
        r == spec_initialize(old(store)@, old(store).program_id(), ctx.authority@, initial_count).1,
{
    let seed = counter_seed();
    let found = try_find_pda(seed.as_slice(), &ctx.authority, &store.program);
    let (address, bump) = match found {
        None => {
            return Err(ErrorCode::AddressDerivationExhausted);
        },
        Some(p) => p,
    };
    proof {
        lemma_map_of_dom(store.accounts@, address@);
    }
    if store.find_index(&address).is_some() {
        return Err(ErrorCode::AccountInUse);
    }
    let record = Counter { authority: ctx.authority, count: initial_count, bump };
    store.accounts.push((address, record));
    proof {
        lemma_map_of_push(old(store).accounts@, (address, record));
    }
    Ok(())
}

/// Add one to the counter at `ctx.counter`, authenticated as `ctx.authority`.
pub fn increment(store: &mut CounterStore, ctx: Update) -> (r: Result<(), ErrorCode>)
    requires
        old(store).wf(),
    ensures
        final(store).wf(),
        final(store).program_id() == old(store).program_id(),
        final(store)@ == spec_increment(old(store)@, old(store).program_id(), ctx.counter@, ctx.authority@).0,
        r == spec_increment(old(store)@, old(store).program_id(), ctx.counter@, ctx.authority@).1,
{
    proof {
        lemma_map_of_dom(store.accounts@, ctx.counter@);
    }
    let i = match store.find_index(&ctx.counter) {
        None => {
            return Err(ErrorCode::AccountNotFound);
        },
        Some(i) => i,
    };
    proof {
        lemma_map_of_value(store.accounts@, i as int);
    }
    let entry = store.accounts[i];
    if !authorize(&entry.1, &ctx.counter, &ctx.authority, &store.program) {
        return Err(ErrorCode::Unauthorized);
    }
    let new_count = match checked_increment(entry.1.count) {
        Ok(n) => n,
        Err(e) => {
            return Err(e);
        },
    };
    let updated = (
        entry.0,
        Counter { authority: entry.1.authority, count: new_count, bump: entry.1.bump },
    );
    store.accounts[i] = updated;
    proof {
        lemma_map_of_update(old(store).accounts@, i as int, updated);
    }
    Ok(())
}

/// Take one from the counter at `ctx.counter`, authenticated as
/// `ctx.authority`.
pub fn decrement(store: &mut CounterStore, ctx: Update) -> (r: Result<(), ErrorCode>)
    requires
        old(store).wf(),
    ensures
        final(store).wf(),
        final(store).program_id() == old(store).program_id(),
        final(store)@ == spec_decrement(old(store)@, old(store).program_id(), ctx.counter@, ctx.authority@).0,
        r == spec_decrement(old(store)@, old(store).program_id(), ctx.counter@, ctx.authority@).1,
{
    proof {
        lemma_map_of_dom(store.accounts@, ctx.counter@);
    }
    let i = match store.find_index(&ctx.counter) {
        None => {
            return Err(ErrorCode::AccountNotFound);
        },
        Some(i) => i,
    };
    proof {
        lemma_map_of_value(store.accounts@, i as int);
    }
    let entry = store.accounts[i];
    if !authorize(&entry.1, &ctx.counter, &ctx.authority, &store.program) {
        return Err(ErrorCode::Unauthorized);
    }
    let new_count = match checked_decrement(entry.1.count) {
        Ok(n) => n,
        Err(e) => {
            return Err(e);
        },
    };
    let updated = (
        entry.0,
        Counter { authority: entry.1.authority, count: new_count, bump: entry.1.bump },
    );
    store.accounts[i] = updated;
    proof {
        lemma_map_of_update(old(store).accounts@, i as int, updated);
    }
    Ok(())
}

/// Set the counter at `ctx.counter` back to zero, authenticated as
/// `ctx.authority`.
pub fn reset(store: &mut CounterStore, ctx: Update) -> (r: Result<(), ErrorCode>)
    requires
        old(store).wf(),
    ensures
        final(store).wf(),
        final(store).program_id() == old(store).program_id(),
        final(store)@ == spec_reset(old(store)@, old(store).program_id(), ctx.counter@, ctx.authority@).0,
        r == spec_reset(old(store)@, old(store).program_id(), ctx.counter@, ctx.authority@).1,
{
    proof {
        lemma_map_of_dom(store.accounts@, ctx.counter@);
    }
    let i = match store.find_index(&ctx.counter) {
        None => {
            return Err(ErrorCode::AccountNotFound);
        },
        Some(i) => i,
    };
    proof {
        lemma_map_of_value(store.accounts@, i as int);
    }
    let entry = store.accounts[i];
    if !authorize(&entry.1, &ctx.counter, &ctx.authority, &store.program) {
        return Err(ErrorCode::Unauthorized);
    }
    let updated = (
        entry.0,
        Counter { authority: entry.1.authority, count: 0u64, bump: entry.1.bump },
    );
    store.accounts[i] = updated;
    proof {
        lemma_map_of_update(old(store).accounts@, i as int, updated);
    }
    Ok(())
}

} // verus!

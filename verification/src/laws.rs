//! The laws of the counter state machine, stated over the storage image and
//! the spec-level transitions that the executable operations are proved to
//! implement.

use vstd::prelude::*;

use crate::pda::{found_pda, pda_at};
use crate::state::{
    counter_authorized, counter_tag, spec_decrement, spec_increment, spec_initialize, spec_reset,
    store_inv, CounterView, ErrorCode,
};

verus! {

/// Creating a counter twice for the same authority fails the second time
/// with an allocation conflict, and the record the first call wrote — its
/// count and witness included — is exactly as the first call left it.
pub proof fn lemma_initialize_twice_conflicts(
    m: Map<Seq<u8>, CounterView>,
    program: Seq<u8>,
    authority: Seq<u8>,
    first_count: u64,
    second_count: u64,
)
    requires
        spec_initialize(m, program, authority, first_count).1 is Ok,
    ensures
        ({
            let m1 = spec_initialize(m, program, authority, first_count).0;
            let second = spec_initialize(m1, program, authority, second_count);
            &&& second.1 == Err::<(), ErrorCode>(ErrorCode::AccountInUse)
            &&& second.0 == m1
            &&& match found_pda(counter_tag(), authority, program) {
                Some(p) => m1[p.0] == (CounterView {
                    authority,
                    count: first_count,
                    bump: p.1,
                }),
                None => false,
            }
        }),
{
}

/// With the counter present and the caller authorized, `increment` adds one
/// where the count is below the maximum; where the count already sits at the
/// maximum it fails with `Overflow` and changes nothing. Authority and
/// witness never change, and no other counter is touched.
pub proof fn lemma_increment(
    m: Map<Seq<u8>, CounterView>,
    program: Seq<u8>,
    address: Seq<u8>,
    authority: Seq<u8>,
)
    requires
        m.dom().contains(address),
        counter_authorized(m[address], address, authority, program),
    ensures
        m[address].count < u64::MAX ==> ({
            let r = spec_increment(m, program, address, authority);
            &&& r.1 == Ok::<(), ErrorCode>(())
            &&& r.0[address].count == m[address].count + 1
            &&& r.0[address].authority == m[address].authority
            &&& r.0[address].bump == m[address].bump
            &&& r.0.dom() == m.dom()
            &&& forall|a: Seq<u8>|
                a != address && #[trigger] m.dom().contains(a) ==> r.0[a] == m[a]
        }),
        m[address].count == u64::MAX ==> spec_increment(m, program, address, authority) == (
            m,
            Err::<(), ErrorCode>(ErrorCode::Overflow),
        ),
{
    if m[address].count < u64::MAX {
        assert(spec_increment(m, program, address, authority).0.dom() =~= m.dom());
    }
}

/// With the counter present and the caller authorized, `decrement` takes one
/// where the count is above zero; where the count is zero it fails with
/// `Underflow` and changes nothing. Authority and witness never change, and
/// no other counter is touched.
pub proof fn lemma_decrement(
    m: Map<Seq<u8>, CounterView>,
    program: Seq<u8>,
    address: Seq<u8>,
    authority: Seq<u8>,
)
    requires
        m.dom().contains(address),
        counter_authorized(m[address], address, authority, program),
    ensures
        m[address].count > 0 ==> ({
            let r = spec_decrement(m, program, address, authority);
            &&& r.1 == Ok::<(), ErrorCode>(())
            &&& r.0[address].count == m[address].count - 1
            &&& r.0[address].authority == m[address].authority
            &&& r.0[address].bump == m[address].bump
            &&& r.0.dom() == m.dom()
            &&& forall|a: Seq<u8>|
                a != address && #[trigger] m.dom().contains(a) ==> r.0[a] == m[a]
        }),
        m[address].count == 0 ==> spec_decrement(m, program, address, authority) == (
            m,
            Err::<(), ErrorCode>(ErrorCode::Underflow),
        ),
{
    if m[address].count > 0 {
        assert(spec_decrement(m, program, address, authority).0.dom() =~= m.dom());
    }
}

/// With the counter present and the caller authorized, `reset` cannot fail:
/// whatever the prior count, it becomes zero, authority and witness stay,
/// and no other counter is touched.
pub proof fn lemma_reset(
    m: Map<Seq<u8>, CounterView>,
    program: Seq<u8>,
    address: Seq<u8>,
    authority: Seq<u8>,
)
    requires
        m.dom().contains(address),
        counter_authorized(m[address], address, authority, program),
    ensures
        ({
            let r = spec_reset(m, program, address, authority);
            &&& r.1 == Ok::<(), ErrorCode>(())
            &&& r.0[address] == (CounterView {
                authority: m[address].authority,
                count: 0u64,
                bump: m[address].bump,
            })
            &&& r.0.dom() == m.dom()
            &&& forall|a: Seq<u8>|
                a != address && #[trigger] m.dom().contains(a) ==> r.0[a] == m[a]
        }),
{
    assert(spec_reset(m, program, address, authority).0.dom() =~= m.dom());
}

/// An update authenticated as any authority other than the counter's
/// controlling one fails with `Unauthorized` and leaves the whole store
/// unchanged, whichever of the three update operations is tried.
pub proof fn lemma_wrong_authority_rejected(
    m: Map<Seq<u8>, CounterView>,
    program: Seq<u8>,
    address: Seq<u8>,
    intruder: Seq<u8>,
)
    requires
        m.dom().contains(address),
        m[address].authority != intruder,
    ensures
        spec_increment(m, program, address, intruder) == (
            m,
            Err::<(), ErrorCode>(ErrorCode::Unauthorized),
        ),
        spec_decrement(m, program, address, intruder) == (
            m,
            Err::<(), ErrorCode>(ErrorCode::Unauthorized),
        ),
        spec_reset(m, program, address, intruder) == (
            m,
            Err::<(), ErrorCode>(ErrorCode::Unauthorized),
        ),
{
}

/// The three update operations keep the record-level invariant: they never
/// touch a record's authority or witness, so every stored counter keeps
/// re-deriving its own address.
pub proof fn lemma_updates_preserve_inv(
    m: Map<Seq<u8>, CounterView>,
    program: Seq<u8>,
    address: Seq<u8>,
    authority: Seq<u8>,
)
    requires
        store_inv(m, program),
    ensures
        store_inv(spec_increment(m, program, address, authority).0, program),
        store_inv(spec_decrement(m, program, address, authority).0, program),
        store_inv(spec_reset(m, program, address, authority).0, program),
{
    let after_inc = spec_increment(m, program, address, authority).0;
    let after_dec = spec_decrement(m, program, address, authority).0;
    let after_reset = spec_reset(m, program, address, authority).0;
    assert forall|a: Seq<u8>| #[trigger] after_inc.dom().contains(a) implies {
        &&& found_pda(counter_tag(), after_inc[a].authority, program) == Some((a, after_inc[a].bump))
        &&& pda_at(counter_tag(), after_inc[a].authority, after_inc[a].bump, program) == Some(a)
    } by {
        assert(m.dom().contains(a));
    }
    assert forall|a: Seq<u8>| #[trigger] after_dec.dom().contains(a) implies {
        &&& found_pda(counter_tag(), after_dec[a].authority, program) == Some((a, after_dec[a].bump))
        &&& pda_at(counter_tag(), after_dec[a].authority, after_dec[a].bump, program) == Some(a)
    } by {
        assert(m.dom().contains(a));
    }
    assert forall|a: Seq<u8>| #[trigger] after_reset.dom().contains(a) implies {
        &&& found_pda(counter_tag(), after_reset[a].authority, program) == Some((a, after_reset[a].bump))
        &&& pda_at(counter_tag(), after_reset[a].authority, after_reset[a].bump, program) == Some(a)
    } by {
        assert(m.dom().contains(a));
    }
}

/// Under the store invariant, the controlling authority itself always
/// passes the authorization check on its own counter: its stored witness
/// re-derives exactly the address the counter lives at.
pub proof fn lemma_owner_authorized(
    m: Map<Seq<u8>, CounterView>,
    program: Seq<u8>,
    address: Seq<u8>,
)
    requires
        store_inv(m, program),
        m.dom().contains(address),
    ensures
        counter_authorized(m[address], address, m[address].authority, program),
{
}

} // verus!

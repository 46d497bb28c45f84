//! The cross-operation laws of the registry, stated over the store model that
//! every operation's contract speaks of.

use crate::records::OwnerV;
use crate::realty::owner_email_taken;
use crate::store::{dom_bounded, Store};
use vstd::prelude::*;

verus! {

/// Identifier uniqueness. In a well-formed store, every identifier already
/// stored — in any entity table — lies strictly below the counter's next
/// value. Every create operation assigns exactly that next value and leaves
/// the counter one higher, so across any sequence of creates, of any mix of
/// entity types, the returned identifiers are pairwise distinct and strictly
/// increasing.
pub proof fn lemma_identifiers_fresh(s: Store)
    requires
        s.wf(),
    ensures
        dom_bounded(s.properties_m(), s.next_id()),
        dom_bounded(s.owners_m(), s.next_id()),
        dom_bounded(s.transactions_m(), s.next_id()),
        dom_bounded(s.money_transactions_m(), s.next_id()),
        dom_bounded(s.alumni_m(), s.next_id()),
        dom_bounded(s.associations_m(), s.next_id()),
        dom_bounded(s.events_m(), s.next_id()),
        dom_bounded(s.messages_m(), s.next_id()),
        dom_bounded(s.mentorships_m(), s.next_id()),
        forall|k: u64| #[trigger] s.properties_m().dom().contains(k) ==> k != s.next_id(),
        forall|k: u64| #[trigger] s.owners_m().dom().contains(k) ==> k != s.next_id(),
        forall|k: u64| #[trigger] s.alumni_m().dom().contains(k) ==> k != s.next_id(),
{
}

/// Round-trip. Every create operation ensures that the new table model is the
/// old one with the created record inserted under the assigned identifier,
/// and every lookup ensures that it returns the model's record under the
/// identifier it is given; together, looking the assigned identifier up right
/// after a create returns exactly the created record.
pub proof fn lemma_create_then_get<V>(m: Map<u64, V>, id: u64, v: V)
    ensures
        m.insert(id, v).dom().contains(id),
        m.insert(id, v)[id] == v,
{
}

/// Uniqueness does not block distinct emails: registering an owner leaves
/// every other email still free, so two owners with different valid emails
/// both succeed.
pub proof fn lemma_distinct_email_still_free(m: Map<u64, OwnerV>, o: OwnerV, email: Seq<char>)
    requires
        !owner_email_taken(m, email),
        o.email != email,
    ensures
        !owner_email_taken(m.insert(o.id, o), email),
{
    assert forall|k: u64| #[trigger]
        m.insert(o.id, o).dom().contains(k) implies m.insert(o.id, o)[k].email != email by {
        if k != o.id {
            assert(m.dom().contains(k));
        }
    }
}

} // verus!

//! The store: one durable identifier cell shared by every entity type, and
//! one durable table per entity type, all carved out of a single physical
//! byte store. A store is built once at process start and handed by reference
//! into every repository operation.

use crate::backing::{cell_get, cell_set, cell_value, fresh_backing, IdCell, RawBacking};
use crate::records::{
    Alumni, AlumniV, Association, AssociationV, Event, EventV, MentorshipRequest,
    MentorshipRequestV, MessageToAssociation, MessageToAssociationV, MoneyTransaction,
    MoneyTransactionV, Owner, OwnerV, Property, PropertyV, Transaction, TransactionV,
};
use crate::table::Table;
use vstd::prelude::*;

verus! {

/// The classified errors a repository operation can return.
#[derive(Clone, Copy, PartialEq, Eq, Structural, Debug)]
pub enum RepoError {
    /// A required field is missing or empty, a structured field is malformed,
    /// or a business invariant (uniqueness, capacity, self-transfer) is
    /// violated.
    InvalidPayload,
    /// A referenced identifier does not exist, or a listing or search found
    /// nothing.
    NotFound,
    /// The acting party does not hold the required relationship.
    Unauthorized,
}

/// Every key of the map lies strictly below `next`.
pub open spec fn dom_bounded<V>(m: Map<u64, V>, next: u64) -> bool {
    forall|k: u64| #[trigger] m.dom().contains(k) ==> k < next
}

/// A bounded map stays bounded under a larger bound.
pub proof fn lemma_dom_bounded_weaken<V>(m: Map<u64, V>, n1: u64, n2: u64)
    requires
        dom_bounded(m, n1),
        n1 <= n2,
    ensures
        dom_bounded(m, n2),
{
    assert forall|k: u64| #[trigger] m.dom().contains(k) implies k < n2 by {
        assert(m.dom().contains(k));
    }
}

/// Inserting below the bound keeps a bounded map bounded.
pub proof fn lemma_dom_bounded_grow<V>(m: Map<u64, V>, key: u64, v: V, n1: u64, n2: u64)
    requires
        dom_bounded(m, n1),
        n1 <= n2,
        key < n2,
    ensures
        dom_bounded(m.insert(key, v), n2),
{
    assert forall|k: u64| #[trigger] m.insert(key, v).dom().contains(k) implies k < n2 by {
        if k != key {
            assert(m.dom().contains(k));
        }
    }
}

/// The registry store.
pub struct Store {
    pub(crate) next: IdCell,
    pub(crate) properties: Table<Property>,
    pub(crate) owners: Table<Owner>,
    pub(crate) transactions: Table<Transaction>,
    pub(crate) money_transactions: Table<MoneyTransaction>,
    pub(crate) alumni: Table<Alumni>,
    pub(crate) associations: Table<Association>,
    pub(crate) events: Table<Event>,
    pub(crate) messages: Table<MessageToAssociation>,
    pub(crate) mentorships: Table<MentorshipRequest>,
}

impl Store {
    /// The identifier the next create operation will assign.
    pub open(crate) spec fn next_id(self) -> u64 {
        cell_value(self.next)
    }

    pub open(crate) spec fn properties_m(self) -> Map<u64, PropertyV> {
        self.properties.model()
    }

    pub open(crate) spec fn owners_m(self) -> Map<u64, OwnerV> {
        self.owners.model()
    }

    pub open(crate) spec fn transactions_m(self) -> Map<u64, TransactionV> {
        self.transactions.model()
    }

    pub open(crate) spec fn money_transactions_m(self) -> Map<u64, MoneyTransactionV> {
        self.money_transactions.model()
    }

    pub open(crate) spec fn alumni_m(self) -> Map<u64, AlumniV> {
        self.alumni.model()
    }

    pub open(crate) spec fn associations_m(self) -> Map<u64, AssociationV> {
        self.associations.model()
    }

    pub open(crate) spec fn events_m(self) -> Map<u64, EventV> {
        self.events.model()
    }

    pub open(crate) spec fn messages_m(self) -> Map<u64, MessageToAssociationV> {
        self.messages.model()
    }

    pub open(crate) spec fn mentorships_m(self) -> Map<u64, MentorshipRequestV> {
        self.mentorships.model()
    }

    /// The store invariant: every table is well formed, and every stored
    /// identifier, of every entity type, lies strictly below the counter.
    pub open(crate) spec fn wf(self) -> bool {
        &&& self.properties.wf()
        &&& self.owners.wf()
        &&& self.transactions.wf()
        &&& self.money_transactions.wf()
        &&& self.alumni.wf()
        &&& self.associations.wf()
        &&& self.events.wf()
        &&& self.messages.wf()
        &&& self.mentorships.wf()
        &&& dom_bounded(self.properties_m(), self.next_id())
        &&& dom_bounded(self.owners_m(), self.next_id())
        &&& dom_bounded(self.transactions_m(), self.next_id())
        &&& dom_bounded(self.money_transactions_m(), self.next_id())
        &&& dom_bounded(self.alumni_m(), self.next_id())
        &&& dom_bounded(self.associations_m(), self.next_id())
        &&& dom_bounded(self.events_m(), self.next_id())
        &&& dom_bounded(self.messages_m(), self.next_id())
        &&& dom_bounded(self.mentorships_m(), self.next_id())
    }

    /// The four tables of the property registry hold the same records in both
    /// stores.
    pub open(crate) spec fn realty_unchanged(a: Store, b: Store) -> bool {
        &&& a.properties_m() == b.properties_m()
        &&& a.owners_m() == b.owners_m()
        &&& a.transactions_m() == b.transactions_m()
        &&& a.money_transactions_m() == b.money_transactions_m()
    }

    /// The five tables of the alumni registry hold the same records in both
    /// stores.
    pub open(crate) spec fn campus_unchanged(a: Store, b: Store) -> bool {
        &&& a.alumni_m() == b.alumni_m()
        &&& a.associations_m() == b.associations_m()
        &&& a.events_m() == b.events_m()
        &&& a.messages_m() == b.messages_m()
        &&& a.mentorships_m() == b.mentorships_m()
    }

    /// Formats a fresh store: counter at zero, every table empty.
    pub fn new() -> (r: Store)
        ensures
            r.wf(),
            r.next_id() == 0,
            r.properties_m() == Map::<u64, PropertyV>::empty(),
            r.owners_m() == Map::<u64, OwnerV>::empty(),
            r.transactions_m() == Map::<u64, TransactionV>::empty(),
            r.money_transactions_m() == Map::<u64, MoneyTransactionV>::empty(),
            r.alumni_m() == Map::<u64, AlumniV>::empty(),
            r.associations_m() == Map::<u64, AssociationV>::empty(),
            r.events_m() == Map::<u64, EventV>::empty(),
            r.messages_m() == Map::<u64, MessageToAssociationV>::empty(),
            r.mentorships_m() == Map::<u64, MentorshipRequestV>::empty(),
    {
        let RawBacking { cell, mut maps } = fresh_backing();
        let m_mentorships = maps.pop().unwrap();
        let m_messages = maps.pop().unwrap();
        let m_events = maps.pop().unwrap();
        let m_associations = maps.pop().unwrap();
        let m_alumni = maps.pop().unwrap();
        let m_money = maps.pop().unwrap();
        let m_transactions = maps.pop().unwrap();
        let m_owners = maps.pop().unwrap();
        let m_properties = maps.pop().unwrap();
        Store {
            next: cell,
            properties: Table::new(m_properties),
            owners: Table::new(m_owners),
            transactions: Table::new(m_transactions),
            money_transactions: Table::new(m_money),
            alumni: Table::new(m_alumni),
            associations: Table::new(m_associations),
            events: Table::new(m_events),
            messages: Table::new(m_messages),
            mentorships: Table::new(m_mentorships),
        }
    }
}

/// After one allocation, every table's identifiers still lie below the new
/// counter value.
pub proof fn lemma_store_bounds_bumped(a: Store, id: u64)
    requires
        a.wf(),
        id == a.next_id(),
        id < u64::MAX,
    ensures
        dom_bounded(a.properties_m(), (id + 1) as u64),
        dom_bounded(a.owners_m(), (id + 1) as u64),
        dom_bounded(a.transactions_m(), (id + 1) as u64),
        dom_bounded(a.money_transactions_m(), (id + 1) as u64),
        dom_bounded(a.alumni_m(), (id + 1) as u64),
        dom_bounded(a.associations_m(), (id + 1) as u64),
        dom_bounded(a.events_m(), (id + 1) as u64),
        dom_bounded(a.messages_m(), (id + 1) as u64),
        dom_bounded(a.mentorships_m(), (id + 1) as u64),
{
    lemma_dom_bounded_weaken(a.properties_m(), id, (id + 1) as u64);
    lemma_dom_bounded_weaken(a.owners_m(), id, (id + 1) as u64);
    lemma_dom_bounded_weaken(a.transactions_m(), id, (id + 1) as u64);
    lemma_dom_bounded_weaken(a.money_transactions_m(), id, (id + 1) as u64);
    lemma_dom_bounded_weaken(a.alumni_m(), id, (id + 1) as u64);
    lemma_dom_bounded_weaken(a.associations_m(), id, (id + 1) as u64);
    lemma_dom_bounded_weaken(a.events_m(), id, (id + 1) as u64);
    lemma_dom_bounded_weaken(a.messages_m(), id, (id + 1) as u64);
    lemma_dom_bounded_weaken(a.mentorships_m(), id, (id + 1) as u64);
}

/// Allocates the next identifier: returns the counter's value and durably
/// increments it, the one mutation the counter ever sees.
pub(crate) fn alloc_id(c: &mut IdCell) -> (id: u64)
    requires
        cell_value(*old(c)) < u64::MAX,
    ensures
        id == cell_value(*old(c)),
        cell_value(*final(c)) == id + 1,
{
    let v = cell_get(c);
    cell_set(c, v + 1);
    v
}

} // verus!

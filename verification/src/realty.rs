//! The property registry: owners with unique validated emails, properties
//! referencing their owner, property transfers (a transaction record plus the
//! ownership update), and money transfers. Every operation validates its
//! payload and its references before it mutates anything, and every error is
//! pinned to exactly the inputs that produce it.

use crate::records::{
    lemma_money_transaction_enc_len, lemma_owner_enc_len, lemma_property_enc_len,
    lemma_transaction_enc_len, owner_enc_len, property_enc_len, MoneyTransaction,
    MoneyTransactionV, Owner, OwnerV, Property, PropertyV, Transaction, TransactionV,
};
use crate::store::{
    alloc_id, lemma_dom_bounded_grow, lemma_store_bounds_bumped, RepoError, Store,
};
use crate::table::{listing_of, Record, Table, MAX_RECORD_BYTES};
use crate::text::{email_format_ok, has_substring, is_valid_email};
use vstd::prelude::*;
use vstd::string::StrSliceExecFns;

verus! {

/// What a caller supplies to register a property.
pub struct PropertyPayload {
    pub owner_id: u64,
    pub address: String,
    pub description: String,
}

/// What a caller supplies to register an owner.
pub struct OwnerPayload {
    pub name: String,
    pub email: String,
}

/// What a caller supplies to transfer a property.
pub struct TransactionPayload {
    pub property_id: u64,
    pub from_owner_id: u64,
    pub to_owner_id: u64,
    pub transaction_date: u64,
    pub amount: u64,
}

/// What a caller supplies to transfer money between owners.
pub struct MoneyTransactionPayload {
    pub from_owner_id: u64,
    pub to_owner_id: u64,
    pub amount: u64,
    pub transaction_date: u64,
}

/// The optional predicates of a property search, combined with AND.
pub struct SearchPropertyPayload {
    pub address: Option<String>,
    pub owner_id: Option<u64>,
}

/// Whether a property satisfies every predicate a search supplies.
pub open spec fn property_matches(p: PropertyV, q: SearchPropertyPayload) -> bool {
    &&& (q.address matches Some(a) ==> has_substring(p.address, a@))
    &&& (q.owner_id matches Some(o) ==> p.owner_id == o)
}

/// A successful search result: non-empty, ascending by identifier, sound
/// (every record stands in the store and satisfies the predicates) and
/// complete (every stored record that satisfies them appears).
pub open spec fn search_result_ok(
    v: Seq<Property>,
    m: Map<u64, PropertyV>,
    q: SearchPropertyPayload,
) -> bool {
    &&& v.len() > 0
    &&& forall|i: int, j: int| 0 <= i < j < v.len() ==> (#[trigger] v[i])@.id < (#[trigger] v[j])@.id
    &&& forall|i: int|
        0 <= i < v.len() ==> m.dom().contains((#[trigger] v[i])@.id) && v[i]@ == m[v[i]@.id]
            && property_matches(v[i]@, q)
    &&& forall|k: u64|
        #[trigger] m.dom().contains(k) && property_matches(m[k], q) ==> exists|i: int|
            0 <= i < v.len() && (#[trigger] v[i])@.id == k
}

/// Whether some stored owner already uses this email.
pub open spec fn owner_email_taken(m: Map<u64, OwnerV>, email: Seq<char>) -> bool {
    exists|k: u64| #[trigger] m.dom().contains(k) && m[k].email == email
}

#[verifier::loop_isolation(false)]
fn email_taken(owners: &Table<Owner>, email: &String) -> (r: bool)
    requires
        owners.wf(),
    ensures
        r == owner_email_taken(owners.model(), email@),
{
    let all = owners.list();
    let n = all.len();
    for i in 0..n
        invariant
            forall|l: int| 0 <= l < i ==> (#[trigger] all@[l])@.email != email@,
    {
        if all[i].email == *email {
            proof {
                assert(owners.model().dom().contains(Owner::rid(all@[i as int]@)));
            }
            return true;
        }
    }
    proof {
        if owner_email_taken(owners.model(), email@) {
            let k = choose|k: u64|
                #[trigger] owners.model().dom().contains(k) && owners.model()[k].email == email@;
            let i = choose|i: int| 0 <= i < all@.len() && Owner::rid((#[trigger] all@[i])@) == k;
            assert(all@[i]@.email == email@);
        }
    }
    false
}

/// Whether this property satisfies every predicate the search supplies.
fn matches_payload(p: &Property, payload: &SearchPropertyPayload) -> (r: bool)
    ensures
        r == property_matches(p@, *payload),
{
    match &payload.address {
        Some(a) => {
            if !crate::text::contains_text(p.address.as_str(), a.as_str()) {
                return false;
            }
        },
        None => {},
    }
    match payload.owner_id {
        Some(o) => {
            if p.owner_id != o {
                return false;
            }
        },
        None => {},
    }
    true
}

fn clone_property(p: &Property) -> (r: Property)
    ensures
        r == *p,
{
    Property {
        id: p.id,
        owner_id: p.owner_id,
        address: p.address.clone(),
        description: p.description.clone(),
        created_at: p.created_at,
    }
}

/// Keeps, in order, exactly the properties of a sorted listing that satisfy
/// the search predicates.
#[verifier::rlimit(60)]
fn filter_matching(all: &Vec<Property>, payload: &SearchPropertyPayload) -> (out: Vec<Property>)
    requires
        forall|i: int, j: int|
            0 <= i < j < all@.len() ==> (#[trigger] all@[i])@.id < (#[trigger] all@[j])@.id,
    ensures
        forall|a: int| 0 <= a < out@.len() ==> all@.contains(#[trigger] out@[a]),
        forall|a: int| 0 <= a < out@.len() ==> property_matches((#[trigger] out@[a])@, *payload),
        forall|a: int, b: int|
            0 <= a < b < out@.len() ==> (#[trigger] out@[a])@.id < (#[trigger] out@[b])@.id,
        forall|l: int|
            0 <= l < all@.len() && property_matches((#[trigger] all@[l])@, *payload)
                ==> out@.contains(all@[l]),
{
    let mut out: Vec<Property> = Vec::new();
    let ghost mut src: Seq<int> = Seq::empty();
    let n = all.len();
    for idx in 0..n
        invariant
            n == all@.len(),
            forall|i: int, j: int|
                0 <= i < j < all@.len() ==> (#[trigger] all@[i])@.id < (#[trigger] all@[j])@.id,
            src.len() == out@.len(),
            forall|a: int|
                0 <= a < out@.len() ==> 0 <= #[trigger] src[a] < idx && out@[a] == all@[src[a]],
            forall|a: int, b: int| 0 <= a < b < src.len() ==> #[trigger] src[a] < #[trigger] src[b],
            forall|l: int|
                0 <= l < idx && property_matches((#[trigger] all@[l])@, *payload) ==> exists|
                    a: int,
                | 0 <= a < src.len() && #[trigger] src[a] == l,
            forall|l: int| 0 <= l < idx && !property_matches((#[trigger] all@[l])@, *payload)
                ==> !exists|a: int| 0 <= a < src.len() && #[trigger] src[a] == l,
    {
        let p = &all[idx];
        if matches_payload(p, payload) {
            let kept = clone_property(p);
            let ghost prev_src = src;
            out.push(kept);
            proof {
                src = src.push(idx as int);
                assert(src[src.len() - 1] == idx as int);
                assert forall|l: int|
                    0 <= l < idx + 1 && property_matches((#[trigger] all@[l])@, *payload) implies
                    exists|a: int| 0 <= a < src.len() && #[trigger] src[a] == l by {
                    if l < idx {
                        let a = choose|a: int|
                            0 <= a < prev_src.len() && #[trigger] prev_src[a] == l;
                        assert(src[a] == l);
                    } else {
                        assert(src[src.len() - 1] == l);
                    }
                }
            }
        }
    }
    proof {
        assert forall|a: int| 0 <= a < out@.len() implies all@.contains(#[trigger] out@[a]) by {
            assert(out@[a] == all@[src[a]]);
        }
        assert forall|a: int| 0 <= a < out@.len() implies property_matches(
            (#[trigger] out@[a])@,
            *payload,
        ) by {
            let l = src[a];
            if !property_matches(all@[l]@, *payload) {
                assert(!exists|b: int| 0 <= b < src.len() && #[trigger] src[b] == l);
            }
            assert(out@[a] == all@[l]);
        }
        assert forall|a: int, b: int| 0 <= a < b < out@.len() implies (#[trigger] out@[a])@.id
            < (#[trigger] out@[b])@.id by {
            assert(out@[a] == all@[src[a]]);
            assert(out@[b] == all@[src[b]]);
        }
        assert forall|l: int|
            0 <= l < all@.len() && property_matches((#[trigger] all@[l])@, *payload) implies
            out@.contains(all@[l]) by {
            let a = choose|a: int| 0 <= a < src.len() && #[trigger] src[a] == l;
            assert(out@[a] == all@[l]);
        }
    }
    out
}

impl Store {
    /// Registers a property after checking that both text fields are present
    /// and that the owner it references exists.
    pub fn create_property(&mut self, payload: PropertyPayload, now: u64) -> (r: Result<
        Property,
        RepoError,
    >)
        requires
            old(self).wf(),
            old(self).next_id() < u64::MAX,
            property_enc_len(payload.address@, payload.description@) <= MAX_RECORD_BYTES as int,
        ensures
            final(self).wf(),
            r is Ok <==> (payload.address@.len() > 0 && payload.description@.len() > 0 && old(
                self,
            ).owners_m().dom().contains(payload.owner_id)),
            match r {
                Ok(p) => {
                    &&& p@ == (PropertyV {
                        id: old(self).next_id(),
                        owner_id: payload.owner_id,
                        address: payload.address@,
                        description: payload.description@,
                        created_at: now,
                    })
                    &&& final(self).properties_m() == old(self).properties_m().insert(p@.id, p@)
                    &&& final(self).next_id() == old(self).next_id() + 1
                    &&& final(self).owners_m() == old(self).owners_m()
                    &&& final(self).transactions_m() == old(self).transactions_m()
                    &&& final(self).money_transactions_m() == old(self).money_transactions_m()
                    &&& Store::campus_unchanged(*old(self), *final(self))
                },
                Err(e) => {
                    &&& *final(self) == *old(self)
                    &&& (e == RepoError::InvalidPayload <==> (payload.address@.len() == 0
                        || payload.description@.len() == 0))
                    &&& (e == RepoError::NotFound <==> (payload.address@.len() > 0
                        && payload.description@.len() > 0 && !old(self).owners_m().dom().contains(
                        payload.owner_id,
                    )))
                },
            },
    {
        if payload.address.as_str().unicode_len() == 0 || payload.description.as_str().unicode_len()
            == 0 {
            return Err(RepoError::InvalidPayload);
        }
        if !self.owners.contains(payload.owner_id) {
            return Err(RepoError::NotFound);
        }
        let id = alloc_id(&mut self.next);
        let property = Property {
            id,
            owner_id: payload.owner_id,
            address: payload.address,
            description: payload.description,
            created_at: now,
        };
        proof {
            lemma_property_enc_len(property@);
        }
        self.properties.put(&property);
        proof {
            lemma_store_bounds_bumped(*old(self), id);
            lemma_dom_bounded_grow(old(self).properties_m(), id, property@, id, (id + 1) as u64);
        }
        Ok(property)
    }

    /// Registers an owner after checking that name and email are present,
    /// that the email has the accepted shape, and that no stored owner
    /// already uses it.
    pub fn create_owner(&mut self, payload: OwnerPayload, now: u64) -> (r: Result<
        Owner,
        RepoError,
    >)
        requires
            old(self).wf(),
            old(self).next_id() < u64::MAX,
            owner_enc_len(payload.name@, payload.email@) <= MAX_RECORD_BYTES as int,
        ensures
            final(self).wf(),
            r is Ok <==> (payload.name@.len() > 0 && payload.email@.len() > 0 && is_valid_email(
                payload.email@,
            ) && !owner_email_taken(old(self).owners_m(), payload.email@)),
            match r {
                Ok(o) => {
                    &&& o@ == (OwnerV {
                        id: old(self).next_id(),
                        name: payload.name@,
                        email: payload.email@,
                        created_at: now,
                    })
                    &&& final(self).owners_m() == old(self).owners_m().insert(o@.id, o@)
                    &&& final(self).next_id() == old(self).next_id() + 1
                    &&& final(self).properties_m() == old(self).properties_m()
                    &&& final(self).transactions_m() == old(self).transactions_m()
                    &&& final(self).money_transactions_m() == old(self).money_transactions_m()
                    &&& Store::campus_unchanged(*old(self), *final(self))
                },
                Err(e) => {
                    &&& *final(self) == *old(self)
                    &&& e == RepoError::InvalidPayload
                },
            },
    {
        if payload.name.as_str().unicode_len() == 0 || payload.email.as_str().unicode_len() == 0 {
            return Err(RepoError::InvalidPayload);
        }
        if !email_format_ok(payload.email.as_str()) {
            return Err(RepoError::InvalidPayload);
        }
        if email_taken(&self.owners, &payload.email) {
            return Err(RepoError::InvalidPayload);
        }
        let id = alloc_id(&mut self.next);
        let owner = Owner { id, name: payload.name, email: payload.email, created_at: now };
        proof {
            lemma_owner_enc_len(owner@);
        }
        self.owners.put(&owner);
        proof {
            lemma_store_bounds_bumped(*old(self), id);
            lemma_dom_bounded_grow(old(self).owners_m(), id, owner@, id, (id + 1) as u64);
        }
        Ok(owner)
    }

    /// Transfers a property: checks that the property and both owners exist,
    /// that the sender currently owns the property and is not the receiver,
    /// then records a transaction and rewrites the property's owner. The two
    /// writes land in two different tables, one after the other.
    pub fn transfer_property(&mut self, payload: TransactionPayload, now: u64) -> (r: Result<
        Transaction,
        RepoError,
    >)
        requires
            old(self).wf(),
            old(self).next_id() < u64::MAX,
        ensures
            final(self).wf(),
            r is Ok <==> (old(self).properties_m().dom().contains(payload.property_id) && old(
                self,
            ).owners_m().dom().contains(payload.from_owner_id) && old(
                self,
            ).owners_m().dom().contains(payload.to_owner_id) && old(self).properties_m()[
                payload.property_id
            ].owner_id == payload.from_owner_id && payload.from_owner_id != payload.to_owner_id),
            match r {
                Ok(t) => {
                    &&& t@ == (TransactionV {
                        id: old(self).next_id(),
                        property_id: payload.property_id,
                        from_owner_id: payload.from_owner_id,
                        to_owner_id: payload.to_owner_id,
                        transaction_date: payload.transaction_date,
                        created_at: now,
                        amount: payload.amount,
                    })
                    &&& final(self).transactions_m() == old(self).transactions_m().insert(
                        t@.id,
                        t@,
                    )
                    &&& final(self).properties_m() == old(self).properties_m().insert(
                        payload.property_id,
                        (PropertyV {
                            owner_id: payload.to_owner_id,
                            ..old(self).properties_m()[payload.property_id]
                        }),
                    )
                    &&& final(self).next_id() == old(self).next_id() + 1
                    &&& final(self).owners_m() == old(self).owners_m()
                    &&& final(self).money_transactions_m() == old(self).money_transactions_m()
                    &&& Store::campus_unchanged(*old(self), *final(self))
                },
                Err(e) => {
                    &&& *final(self) == *old(self)
                    &&& (e == RepoError::NotFound <==> (!old(self).properties_m().dom().contains(
                        payload.property_id,
                    ) || !old(self).owners_m().dom().contains(payload.from_owner_id) || !old(
                        self,
                    ).owners_m().dom().contains(payload.to_owner_id)))
                    &&& (e == RepoError::Unauthorized <==> (old(
                        self,
                    ).properties_m().dom().contains(payload.property_id) && old(
                        self,
                    ).owners_m().dom().contains(payload.from_owner_id) && old(
                        self,
                    ).owners_m().dom().contains(payload.to_owner_id) && (old(self).properties_m()[
                        payload.property_id
                    ].owner_id != payload.from_owner_id || payload.from_owner_id
                        == payload.to_owner_id)))
                },
            },
    {
        if !self.properties.contains(payload.property_id) {
            return Err(RepoError::NotFound);
        }
        if !self.owners.contains(payload.from_owner_id) {
            return Err(RepoError::NotFound);
        }
        if !self.owners.contains(payload.to_owner_id) {
            return Err(RepoError::NotFound);
        }
        let prop = match self.properties.get(payload.property_id) {
            Some(p) => p,
            None => vstd::pervasive::unreached(),
        };
        if prop.owner_id != payload.from_owner_id {
            return Err(RepoError::Unauthorized);
        }
        if payload.from_owner_id == payload.to_owner_id {
            return Err(RepoError::Unauthorized);
        }
        let id = alloc_id(&mut self.next);
        let transaction = Transaction {
            id,
            property_id: payload.property_id,
            from_owner_id: payload.from_owner_id,
            to_owner_id: payload.to_owner_id,
            transaction_date: payload.transaction_date,
            created_at: now,
            amount: payload.amount,
        };
        proof {
            lemma_transaction_enc_len(transaction@);
        }
        self.transactions.put(&transaction);
        let updated = Property {
            id: prop.id,
            owner_id: payload.to_owner_id,
            address: prop.address,
            description: prop.description,
            created_at: prop.created_at,
        };
        proof {
            lemma_property_enc_len(updated@);
            lemma_property_enc_len(old(self).properties_m()[payload.property_id]);
        }
        self.properties.remove(payload.property_id);
        proof {
            assert forall|k: u64| #[trigger]
                old(self).properties_m().remove(payload.property_id).dom().contains(
                    k,
                ) implies k < (id + 1) as u64 by {
                assert(old(self).properties_m().dom().contains(k));
            }
        }
        self.properties.put(&updated);
        proof {
            assert(old(self).properties_m().remove(payload.property_id).insert(
                payload.property_id,
                updated@,
            ) =~= old(self).properties_m().insert(payload.property_id, updated@));
        }
        proof {
            lemma_store_bounds_bumped(*old(self), id);
            lemma_dom_bounded_grow(old(self).transactions_m(), id, transaction@, id, (id + 1) as u64);

        }
        Ok(transaction)
    }

    /// Records a money transfer after checking that both owners exist and
    /// differ.
    pub fn create_money_transaction(&mut self, payload: MoneyTransactionPayload, now: u64) -> (r:
        Result<MoneyTransaction, RepoError>)
        requires
            old(self).wf(),
            old(self).next_id() < u64::MAX,
        ensures
            final(self).wf(),
            r is Ok <==> (old(self).owners_m().dom().contains(payload.from_owner_id) && old(
                self,
            ).owners_m().dom().contains(payload.to_owner_id) && payload.from_owner_id
                != payload.to_owner_id),
            match r {
                Ok(t) => {
                    &&& t@ == (MoneyTransactionV {
                        id: old(self).next_id(),
                        from_owner_id: payload.from_owner_id,
                        to_owner_id: payload.to_owner_id,
                        amount: payload.amount,
                        transaction_date: payload.transaction_date,
                        created_at: now,
                    })
                    &&& final(self).money_transactions_m() == old(
                        self,
                    ).money_transactions_m().insert(t@.id, t@)
                    &&& final(self).next_id() == old(self).next_id() + 1
                    &&& final(self).properties_m() == old(self).properties_m()
                    &&& final(self).owners_m() == old(self).owners_m()
                    &&& final(self).transactions_m() == old(self).transactions_m()
                    &&& Store::campus_unchanged(*old(self), *final(self))
                },
                Err(e) => {
                    &&& *final(self) == *old(self)
                    &&& (e == RepoError::NotFound <==> (!old(self).owners_m().dom().contains(
                        payload.from_owner_id,
                    ) || !old(self).owners_m().dom().contains(payload.to_owner_id)))
                    &&& (e == RepoError::Unauthorized <==> (old(self).owners_m().dom().contains(
                        payload.from_owner_id,
                    ) && old(self).owners_m().dom().contains(payload.to_owner_id)
                        && payload.from_owner_id == payload.to_owner_id))
                },
            },
    {
        if !self.owners.contains(payload.from_owner_id) {
            return Err(RepoError::NotFound);
        }
        if !self.owners.contains(payload.to_owner_id) {
            return Err(RepoError::NotFound);
        }
        if payload.from_owner_id == payload.to_owner_id {
            return Err(RepoError::Unauthorized);
        }
        let id = alloc_id(&mut self.next);
        let money_transaction = MoneyTransaction {
            id,
            from_owner_id: payload.from_owner_id,
            to_owner_id: payload.to_owner_id,
            amount: payload.amount,
            transaction_date: payload.transaction_date,
            created_at: now,
        };
        proof {
            lemma_money_transaction_enc_len(money_transaction@);
        }
        self.money_transactions.put(&money_transaction);
        proof {
            lemma_store_bounds_bumped(*old(self), id);
            lemma_dom_bounded_grow(
                old(self).money_transactions_m(),
                id,
                money_transaction@,
                id,
                (id + 1) as u64,
            );
        }
        Ok(money_transaction)
    }

    /// Every property, in ascending identifier order; an empty store is an
    /// error, never an empty listing.
    pub fn get_properties(&self) -> (r: Result<Vec<Property>, RepoError>)
        requires
            self.wf(),
        ensures
            r is Ok <==> self.properties_m() != Map::<u64, PropertyV>::empty(),
            match r {
                Ok(v) => v@.len() > 0 && listing_of(v@, self.properties_m()),
                Err(e) => e == RepoError::NotFound,
            },
    {
        let all = self.properties.list();
        if all.is_empty() {
            Err(RepoError::NotFound)
        } else {
            Ok(all)
        }
    }

    /// The property stored under the identifier.
    pub fn get_property_by_id(&self, id: u64) -> (r: Result<Property, RepoError>)
        requires
            self.wf(),
        ensures
            r is Ok <==> self.properties_m().dom().contains(id),
            match r {
                Ok(p) => p@ == self.properties_m()[id],
                Err(e) => e == RepoError::NotFound,
            },
    {
        match self.properties.get(id) {
            Some(p) => Ok(p),
            None => Err(RepoError::NotFound),
        }
    }

    /// The properties that satisfy every supplied predicate, in ascending
    /// identifier order; an empty result is an error, never an empty listing.
    #[verifier::rlimit(60)]
    pub fn search_properties(&self, payload: SearchPropertyPayload) -> (r: Result<
        Vec<Property>,
        RepoError,
    >)
        requires
            self.wf(),
        ensures
            r is Ok <==> exists|k: u64|
                #[trigger] self.properties_m().dom().contains(k) && property_matches(
                    self.properties_m()[k],
                    payload,
                ),
            match r {
                Ok(v) => search_result_ok(v@, self.properties_m(), payload),
                Err(e) => e == RepoError::NotFound,
            },
    {
        let all = self.properties.list();
        let out = filter_matching(&all, &payload);
        proof {
            assert forall|i: int|
                0 <= i < out@.len() implies self.properties_m().dom().contains(
                (#[trigger] out@[i])@.id,
            ) && out@[i]@ == self.properties_m()[out@[i]@.id] && property_matches(
                out@[i]@,
                payload,
            ) by {
                assert(all@.contains(out@[i]));
                let l = choose|l: int| 0 <= l < all@.len() && all@[l] == out@[i];
                assert(Property::rid(all@[l]@) == all@[l]@.id);
            }
            assert forall|k: u64|
                #[trigger] self.properties_m().dom().contains(k) && property_matches(
                    self.properties_m()[k],
                    payload,
                ) implies exists|i: int| 0 <= i < out@.len() && (#[trigger] out@[i])@.id == k by {
                let l = choose|l: int|
                    0 <= l < all@.len() && Property::rid((#[trigger] all@[l])@) == k;
                assert(all@[l]@ == self.properties_m()[k]);
                assert(property_matches(all@[l]@, payload));
                assert(out@.contains(all@[l]));
                let a = choose|a: int| 0 <= a < out@.len() && out@[a] == all@[l];
                assert(out@[a]@.id == k);
            }
        }
        if out.is_empty() {
            proof {
                if exists|k: u64|
                    #[trigger] self.properties_m().dom().contains(k) && property_matches(
                        self.properties_m()[k],
                        payload,
                    ) {
                    let k = choose|k: u64|
                        #[trigger] self.properties_m().dom().contains(k) && property_matches(
                            self.properties_m()[k],
                            payload,
                        );
                    let i = choose|i: int| 0 <= i < out@.len() && (#[trigger] out@[i])@.id == k;
                }
            }
            Err(RepoError::NotFound)
        } else {
            proof {
                assert(self.properties_m().dom().contains(out@[0]@.id) && property_matches(
                    out@[0]@,
                    payload,
                ));
                assert(search_result_ok(out@, self.properties_m(), payload));
            }
            Ok(out)
        }
    }

    /// Every owner, in ascending identifier order; an empty store is an
    /// error, never an empty listing.
    pub fn get_owners(&self) -> (r: Result<Vec<Owner>, RepoError>)
        requires
            self.wf(),
        ensures
            r is Ok <==> self.owners_m() != Map::<u64, OwnerV>::empty(),
            match r {
                Ok(v) => v@.len() > 0 && listing_of(v@, self.owners_m()),
                Err(e) => e == RepoError::NotFound,
            },
    {
        let all = self.owners.list();
        if all.is_empty() {
            Err(RepoError::NotFound)
        } else {
            Ok(all)
        }
    }

    /// The owner stored under the identifier.
    pub fn get_owner_by_id(&self, id: u64) -> (r: Result<Owner, RepoError>)
        requires
            self.wf(),
        ensures
            r is Ok <==> self.owners_m().dom().contains(id),
            match r {
                Ok(o) => o@ == self.owners_m()[id],
                Err(e) => e == RepoError::NotFound,
            },
    {
        match self.owners.get(id) {
            Some(o) => Ok(o),
            None => Err(RepoError::NotFound),
        }
    }

    /// Every transaction, in ascending identifier order; an empty store is an
    /// error, never an empty listing.
    pub fn get_transactions(&self) -> (r: Result<Vec<Transaction>, RepoError>)
        requires
            self.wf(),
        ensures
            r is Ok <==> self.transactions_m() != Map::<u64, TransactionV>::empty(),
            match r {
                Ok(v) => v@.len() > 0 && listing_of(v@, self.transactions_m()),
                Err(e) => e == RepoError::NotFound,
            },
    {
        let all = self.transactions.list();
        if all.is_empty() {
            Err(RepoError::NotFound)
        } else {
            Ok(all)
        }
    }

    /// The transaction stored under the identifier.
    pub fn get_transaction_by_id(&self, id: u64) -> (r: Result<Transaction, RepoError>)
        requires
            self.wf(),
        ensures
            r is Ok <==> self.transactions_m().dom().contains(id),
            match r {
                Ok(t) => t@ == self.transactions_m()[id],
                Err(e) => e == RepoError::NotFound,
            },
    {
        match self.transactions.get(id) {
            Some(t) => Ok(t),
            None => Err(RepoError::NotFound),
        }
    }

    /// Every money transaction, in ascending identifier order; an empty store
    /// is an error, never an empty listing.
    pub fn get_money_transactions(&self) -> (r: Result<Vec<MoneyTransaction>, RepoError>)
        requires
            self.wf(),
        ensures
            r is Ok <==> self.money_transactions_m() != Map::<u64, MoneyTransactionV>::empty(),
            match r {
                Ok(v) => v@.len() > 0 && listing_of(v@, self.money_transactions_m()),
                Err(e) => e == RepoError::NotFound,
            },
    {
        let all = self.money_transactions.list();
        if all.is_empty() {
            Err(RepoError::NotFound)
        } else {
            Ok(all)
        }
    }

    /// The money transaction stored under the identifier.
    pub fn get_money_transaction_by_id(&self, id: u64) -> (r: Result<MoneyTransaction, RepoError>)
        requires
            self.wf(),
        ensures
            r is Ok <==> self.money_transactions_m().dom().contains(id),
            match r {
                Ok(t) => t@ == self.money_transactions_m()[id],
                Err(e) => e == RepoError::NotFound,
            },
    {
        match self.money_transactions.get(id) {
            Some(t) => Ok(t),
            None => Err(RepoError::NotFound),
        }
    }
}

} // verus!

//! The alumni registry: alumni with unique validated emails, associations
//! with a member list, events with a bounded attendee list, messages to
//! associations, and mentorship requests with a pending-to-approved
//! lifecycle. Every operation validates its payload and its references before
//! it mutates anything.

use crate::records::{
    alumni_enc_len, association_enc_len, event_enc_len, lemma_alumni_enc_len,
    lemma_association_enc_len, lemma_event_enc_len, lemma_mentorship_enc_len,
    lemma_message_enc_len, mentorship_enc_len, message_enc_len, Alumni, AlumniV, Association,
    AssociationV, Event, EventV, MentorshipRequest, MentorshipRequestV, MessageToAssociation,
    MessageToAssociationV, RequestStatus,
};
use crate::store::{
    alloc_id, lemma_dom_bounded_grow, lemma_store_bounds_bumped, RepoError, Store,
};
use crate::table::{listing_of, Record, Table, MAX_RECORD_BYTES};
use crate::text::{email_format_ok, is_valid_email};
use vstd::prelude::*;
use vstd::string::StrSliceExecFns;

verus! {

/// What a caller supplies to register an alumni member.
pub struct AlumniPayload {
    pub name: String,
    pub email: String,
}

/// What a caller supplies to found an association.
pub struct AssociationPayload {
    pub name: String,
}

/// What a caller supplies to create an event.
pub struct EventPayload {
    pub association_id: u64,
    pub title: String,
    pub capacity: u64,
}

/// What a caller supplies to message an association.
pub struct MessagePayload {
    pub association_id: u64,
    pub alumni_id: u64,
    pub content: String,
}

/// What a caller supplies to request a mentorship.
pub struct MentorshipPayload {
    pub alumni_id: u64,
    pub mentor_id: u64,
    pub topic: String,
}

/// Whether some stored alumni already uses this email.
pub open spec fn alumni_email_taken(m: Map<u64, AlumniV>, email: Seq<char>) -> bool {
    exists|k: u64| #[trigger] m.dom().contains(k) && m[k].email == email
}

#[verifier::loop_isolation(false)]
fn alumni_email_in_use(alumni: &Table<Alumni>, email: &String) -> (r: bool)
    requires
        alumni.wf(),
    ensures
        r == alumni_email_taken(alumni.model(), email@),
{
    let all = alumni.list();
    let n = all.len();
    for i in 0..n
        invariant
            forall|l: int| 0 <= l < i ==> (#[trigger] all@[l])@.email != email@,
    {
        if all[i].email == *email {
            proof {
                assert(alumni.model().dom().contains(Alumni::rid(all@[i as int]@)));
            }
            return true;
        }
    }
    proof {
        if alumni_email_taken(alumni.model(), email@) {
            let k = choose|k: u64|
                #[trigger] alumni.model().dom().contains(k) && alumni.model()[k].email == email@;
            let i = choose|i: int| 0 <= i < all@.len() && Alumni::rid((#[trigger] all@[i])@) == k;
            assert(all@[i]@.email == email@);
        }
    }
    false
}

/// Whether the list of member identifiers holds this one.
fn ids_contain(v: &Vec<u64>, x: u64) -> (r: bool)
    ensures
        r == v@.contains(x),
{
    let n = v.len();
    for i in 0..n
        invariant
            n == v@.len(),
            forall|l: int| 0 <= l < i ==> v@[l] != x,
    {
        if v[i] == x {
            return true;
        }
    }
    proof {
        if v@.contains(x) {
            let i = choose|i: int| 0 <= i < v@.len() && v@[i] == x;
        }
    }
    false
}

/// Whether the list of attendee emails holds this one.
fn texts_contain(v: &Vec<String>, s: &String) -> (r: bool)
    ensures
        r == v.deep_view().contains(s@),
{
    let n = v.len();
    for i in 0..n
        invariant
            n == v@.len(),
            forall|l: int| 0 <= l < i ==> (#[trigger] v@[l])@ != s@,
    {
        if v[i] == *s {
            proof {
                assert(v.deep_view()[i as int] == s@);
            }
            return true;
        }
    }
    proof {
        if v.deep_view().contains(s@) {
            let i = choose|i: int|
                0 <= i < v.deep_view().len() && #[trigger] v.deep_view()[i] == s@;
            assert(v@[i]@ == s@);
        }
    }
    false
}

/// The position of the first occurrence of an identifier in a member list.
fn index_of_id(v: &Vec<u64>, x: u64) -> (r: Option<usize>)
    ensures
        match r {
            Some(i) => i < v@.len() && v@[i as int] == x && (forall|j: int|
                0 <= j < i ==> v@[j] != x),
            None => !v@.contains(x),
        },
{
    let n = v.len();
    let mut idx: usize = 0;
    while idx < n
        invariant
            n == v@.len(),
            0 <= idx <= n,
            forall|j: int| 0 <= j < idx ==> v@[j] != x,
        decreases n - idx,
    {
        if v[idx] == x {
            return Some(idx);
        }
        idx += 1;
    }
    proof {
        if v@.contains(x) {
            let j = choose|j: int| 0 <= j < v@.len() && v@[j] == x;
        }
    }
    None
}

/// The member list with the first occurrence of one identifier removed, and
/// unchanged when the identifier is absent.
pub open spec fn without_first(l: Seq<u64>, x: u64) -> Seq<u64>
    decreases l.len(),
{
    if l.len() == 0 {
        l
    } else if l[0] == x {
        l.drop_first()
    } else {
        seq![l[0]] + without_first(l.drop_first(), x)
    }
}

pub proof fn lemma_without_first_at(l: Seq<u64>, x: u64, i: int)
    requires
        0 <= i < l.len(),
        l[i] == x,
        forall|j: int| 0 <= j < i ==> l[j] != x,
    ensures
        without_first(l, x) == l.remove(i),
    decreases i,
{
    if i == 0 {
        assert(without_first(l, x) =~= l.remove(0));
    } else {
        lemma_without_first_at(l.drop_first(), x, i - 1);
        assert(l.drop_first()[i - 1] == x);
        assert(without_first(l, x) == seq![l[0]] + l.drop_first().remove(i - 1));
        assert(seq![l[0]] + l.drop_first().remove(i - 1) =~= l.remove(i));
    }
}

impl Store {
    /// Registers an alumni member after checking that name and email are
    /// present, that the email has the accepted shape, and that no stored
    /// alumni already uses it.
    pub fn create_alumni(&mut self, payload: AlumniPayload, now: u64) -> (r: Result<
        Alumni,
        RepoError,
    >)
        requires
            old(self).wf(),
            old(self).next_id() < u64::MAX,
            alumni_enc_len(payload.name@, payload.email@) <= MAX_RECORD_BYTES as int,
        ensures
            final(self).wf(),
            r is Ok <==> (payload.name@.len() > 0 && payload.email@.len() > 0 && is_valid_email(
                payload.email@,
            ) && !alumni_email_taken(old(self).alumni_m(), payload.email@)),
            match r {
                Ok(a) => {
                    &&& a@ == (AlumniV {
                        id: old(self).next_id(),
                        name: payload.name@,
                        email: payload.email@,
                        created_at: now,
                    })
                    &&& final(self).alumni_m() == old(self).alumni_m().insert(a@.id, a@)
                    &&& final(self).next_id() == old(self).next_id() + 1
                    &&& final(self).associations_m() == old(self).associations_m()
                    &&& final(self).events_m() == old(self).events_m()
                    &&& final(self).messages_m() == old(self).messages_m()
                    &&& final(self).mentorships_m() == old(self).mentorships_m()
                    &&& Store::realty_unchanged(*old(self), *final(self))
                },
                Err(e) => {
                    &&& *final(self) == *old(self)
                    &&& e == RepoError::InvalidPayload
                },
            },
    {
        if payload.name.as_str().unicode_len() == 0 || payload.email.as_str().unicode_len() == 0 {
            return Err(RepoError::InvalidPayload);
        }
        if !email_format_ok(payload.email.as_str()) {
            return Err(RepoError::InvalidPayload);
        }
        if alumni_email_in_use(&self.alumni, &payload.email) {
            return Err(RepoError::InvalidPayload);
        }
        let id = alloc_id(&mut self.next);
        let member = Alumni { id, name: payload.name, email: payload.email, created_at: now };
        proof {
            lemma_alumni_enc_len(member@);
        }
        self.alumni.put(&member);
        proof {
            lemma_store_bounds_bumped(*old(self), id);
            lemma_dom_bounded_grow(old(self).alumni_m(), id, member@, id, (id + 1) as u64);
        }
        Ok(member)
    }

    /// Every alumni member, in ascending identifier order; an empty store is
    /// an error, never an empty listing.
    pub fn get_alumnis(&self) -> (r: Result<Vec<Alumni>, RepoError>)
        requires
            self.wf(),
        ensures
            r is Ok <==> self.alumni_m() != Map::<u64, AlumniV>::empty(),
            match r {
                Ok(v) => v@.len() > 0 && listing_of(v@, self.alumni_m()),
                Err(e) => e == RepoError::NotFound,
            },
    {
        let all = self.alumni.list();
        if all.is_empty() {
            Err(RepoError::NotFound)
        } else {
            Ok(all)
        }
    }

    /// The alumni member stored under the identifier.
    pub fn get_alumni_by_id(&self, id: u64) -> (r: Result<Alumni, RepoError>)
        requires
            self.wf(),
        ensures
            r is Ok <==> self.alumni_m().dom().contains(id),
            match r {
                Ok(a) => a@ == self.alumni_m()[id],
                Err(e) => e == RepoError::NotFound,
            },
    {
        match self.alumni.get(id) {
            Some(a) => Ok(a),
            None => Err(RepoError::NotFound),
        }
    }

    /// Founds an association with no members yet, after checking that its
    /// name is present.
    pub fn create_association(&mut self, payload: AssociationPayload, now: u64) -> (r: Result<
        Association,
        RepoError,
    >)
        requires
            old(self).wf(),
            old(self).next_id() < u64::MAX,
            association_enc_len(payload.name@, 0) <= MAX_RECORD_BYTES as int,
        ensures
            final(self).wf(),
            r is Ok <==> payload.name@.len() > 0,
            match r {
                Ok(a) => {
                    &&& a@ == (AssociationV {
                        id: old(self).next_id(),
                        name: payload.name@,
                        alumnis: Seq::<u64>::empty(),
                        created_at: now,
                    })
                    &&& final(self).associations_m() == old(self).associations_m().insert(
                        a@.id,
                        a@,
                    )
                    &&& final(self).next_id() == old(self).next_id() + 1
                    &&& final(self).alumni_m() == old(self).alumni_m()
                    &&& final(self).events_m() == old(self).events_m()
                    &&& final(self).messages_m() == old(self).messages_m()
                    &&& final(self).mentorships_m() == old(self).mentorships_m()
                    &&& Store::realty_unchanged(*old(self), *final(self))
                },
                Err(e) => {
                    &&& *final(self) == *old(self)
                    &&& e == RepoError::InvalidPayload
                },
            },
    {
        if payload.name.as_str().unicode_len() == 0 {
            return Err(RepoError::InvalidPayload);
        }
        let id = alloc_id(&mut self.next);
        let assoc = Association { id, name: payload.name, alumnis: Vec::new(), created_at: now };
        proof {
            lemma_association_enc_len(assoc@);
        }
        self.associations.put(&assoc);
        proof {
            lemma_store_bounds_bumped(*old(self), id);
            lemma_dom_bounded_grow(old(self).associations_m(), id, assoc@, id, (id + 1) as u64);
        }
        Ok(assoc)
    }

    /// Every association, in ascending identifier order; an empty store is an
    /// error, never an empty listing.
    pub fn get_associations(&self) -> (r: Result<Vec<Association>, RepoError>)
        requires
            self.wf(),
        ensures
            r is Ok <==> self.associations_m() != Map::<u64, AssociationV>::empty(),
            match r {
                Ok(v) => v@.len() > 0 && listing_of(v@, self.associations_m()),
                Err(e) => e == RepoError::NotFound,
            },
    {
        let all = self.associations.list();
        if all.is_empty() {
            Err(RepoError::NotFound)
        } else {
            Ok(all)
        }
    }

    /// The association stored under the identifier.
    pub fn get_association_by_id(&self, id: u64) -> (r: Result<Association, RepoError>)
        requires
            self.wf(),
        ensures
            r is Ok <==> self.associations_m().dom().contains(id),
            match r {
                Ok(a) => a@ == self.associations_m()[id],
                Err(e) => e == RepoError::NotFound,
            },
    {
        match self.associations.get(id) {
            Some(a) => Ok(a),
            None => Err(RepoError::NotFound),
        }
    }

    /// Adds an alumni member to an association after checking that both exist
    /// and that the member has not joined already.
    pub fn join_association(&mut self, association_id: u64, alumni_id: u64) -> (r: Result<
        Association,
        RepoError,
    >)
        requires
            old(self).wf(),
            old(self).associations_m().dom().contains(association_id) ==> association_enc_len(
                old(self).associations_m()[association_id].name,
                old(self).associations_m()[association_id].alumnis.len() as int + 1,
            ) <= MAX_RECORD_BYTES as int,
        ensures
            final(self).wf(),
            final(self).next_id() == old(self).next_id(),
            r is Ok <==> (old(self).associations_m().dom().contains(association_id) && old(
                self,
            ).alumni_m().dom().contains(alumni_id) && !old(self).associations_m()[
                association_id
            ].alumnis.contains(alumni_id)),
            match r {
                Ok(a) => {
                    &&& a@ == (AssociationV {
                        alumnis: old(self).associations_m()[association_id].alumnis.push(
                            alumni_id,
                        ),
                        ..old(self).associations_m()[association_id]
                    })
                    &&& final(self).associations_m() == old(self).associations_m().insert(
                        association_id,
                        a@,
                    )
                    &&& final(self).alumni_m() == old(self).alumni_m()
                    &&& final(self).events_m() == old(self).events_m()
                    &&& final(self).messages_m() == old(self).messages_m()
                    &&& final(self).mentorships_m() == old(self).mentorships_m()
                    &&& Store::realty_unchanged(*old(self), *final(self))
                },
                Err(e) => {
                    &&& *final(self) == *old(self)
                    &&& (e == RepoError::NotFound <==> (!old(
                        self,
                    ).associations_m().dom().contains(association_id) || !old(
                        self,
                    ).alumni_m().dom().contains(alumni_id)))
                    &&& (e == RepoError::InvalidPayload <==> (old(
                        self,
                    ).associations_m().dom().contains(association_id) && old(
                        self,
                    ).alumni_m().dom().contains(alumni_id) && old(self).associations_m()[
                        association_id
                    ].alumnis.contains(alumni_id)))
                },
            },
    {
        let mut assoc = match self.associations.get(association_id) {
            Some(a) => a,
            None => {
                return Err(RepoError::NotFound);
            },
        };
        if !self.alumni.contains(alumni_id) {
            return Err(RepoError::NotFound);
        }
        if ids_contain(&assoc.alumnis, alumni_id) {
            return Err(RepoError::InvalidPayload);
        }
        assoc.alumnis.push(alumni_id);
        proof {
            lemma_association_enc_len(assoc@);
            lemma_dom_bounded_grow(
                old(self).associations_m(),
                association_id,
                assoc@,
                old(self).next_id(),
                old(self).next_id(),
            );
        }
        self.associations.put(&assoc);
        Ok(assoc)
    }


    /// Removes an alumni member from an association after checking that both
    /// exist and that the member has in fact joined.
    pub fn leave_association(&mut self, association_id: u64, alumni_id: u64) -> (r: Result<
        Association,
        RepoError,
    >)
        requires
            old(self).wf(),
        ensures
            final(self).wf(),
            final(self).next_id() == old(self).next_id(),
            r is Ok <==> (old(self).associations_m().dom().contains(association_id) && old(
                self,
            ).alumni_m().dom().contains(alumni_id) && old(self).associations_m()[
                association_id
            ].alumnis.contains(alumni_id)),
            match r {
                Ok(a) => {
                    &&& a@ == (AssociationV {
                        alumnis: without_first(
                            old(self).associations_m()[association_id].alumnis,
                            alumni_id,
                        ),
                        ..old(self).associations_m()[association_id]
                    })
                    &&& final(self).associations_m() == old(self).associations_m().insert(
                        association_id,
                        a@,
                    )
                    &&& final(self).alumni_m() == old(self).alumni_m()
                    &&& final(self).events_m() == old(self).events_m()
                    &&& final(self).messages_m() == old(self).messages_m()
                    &&& final(self).mentorships_m() == old(self).mentorships_m()
                    &&& Store::realty_unchanged(*old(self), *final(self))
                },
                Err(e) => {
                    &&& *final(self) == *old(self)
                    &&& (e == RepoError::NotFound <==> (!old(
                        self,
                    ).associations_m().dom().contains(association_id) || !old(
                        self,
                    ).alumni_m().dom().contains(alumni_id)))
                    &&& (e == RepoError::InvalidPayload <==> (old(
                        self,
                    ).associations_m().dom().contains(association_id) && old(
                        self,
                    ).alumni_m().dom().contains(alumni_id) && !old(self).associations_m()[
                        association_id
                    ].alumnis.contains(alumni_id)))
                },
            },
    {
        let mut assoc = match self.associations.get(association_id) {
            Some(a) => a,
            None => {
                return Err(RepoError::NotFound);
            },
        };
        if !self.alumni.contains(alumni_id) {
            return Err(RepoError::NotFound);
        }
        let idx = match index_of_id(&assoc.alumnis, alumni_id) {
            Some(i) => i,
            None => {
                return Err(RepoError::InvalidPayload);
            },
        };
        let ghost members = assoc.alumnis@;
        proof {
            assert(members[idx as int] == alumni_id);
            assert(members.contains(alumni_id));
            lemma_without_first_at(members, alumni_id, idx as int);
        }
        assoc.alumnis.remove(idx);
        proof {
            lemma_association_enc_len(assoc@);
            lemma_association_enc_len(old(self).associations_m()[association_id]);
            lemma_dom_bounded_grow(
                old(self).associations_m(),
                association_id,
                assoc@,
                old(self).next_id(),
                old(self).next_id(),
            );
        }
        self.associations.put(&assoc);
        Ok(assoc)
    }

    /// Creates an event after checking that its title is present, that its
    /// capacity is positive, and that the association it belongs to exists.
    pub fn create_event(&mut self, payload: EventPayload, now: u64) -> (r: Result<
        Event,
        RepoError,
    >)
        requires
            old(self).wf(),
            old(self).next_id() < u64::MAX,
            event_enc_len(payload.title@, Seq::<Seq<char>>::empty()) <= MAX_RECORD_BYTES as int,
        ensures
            final(self).wf(),
            r is Ok <==> (payload.title@.len() > 0 && payload.capacity > 0 && old(
                self,
            ).associations_m().dom().contains(payload.association_id)),
            match r {
                Ok(ev) => {
                    &&& ev@ == (EventV {
                        id: old(self).next_id(),
                        association_id: payload.association_id,
                        title: payload.title@,
                        capacity: payload.capacity,
                        attendees: Seq::<Seq<char>>::empty(),
                        created_at: now,
                    })
                    &&& final(self).events_m() == old(self).events_m().insert(ev@.id, ev@)
                    &&& final(self).next_id() == old(self).next_id() + 1
                    &&& final(self).alumni_m() == old(self).alumni_m()
                    &&& final(self).associations_m() == old(self).associations_m()
                    &&& final(self).messages_m() == old(self).messages_m()
                    &&& final(self).mentorships_m() == old(self).mentorships_m()
                    &&& Store::realty_unchanged(*old(self), *final(self))
                },
                Err(e) => {
                    &&& *final(self) == *old(self)
                    &&& (e == RepoError::InvalidPayload <==> (payload.title@.len() == 0
                        || payload.capacity == 0))
                    &&& (e == RepoError::NotFound <==> (payload.title@.len() > 0
                        && payload.capacity > 0 && !old(self).associations_m().dom().contains(
                        payload.association_id,
                    )))
                },
            },
    {
        if payload.title.as_str().unicode_len() == 0 || payload.capacity == 0 {
            return Err(RepoError::InvalidPayload);
        }
        if !self.associations.contains(payload.association_id) {
            return Err(RepoError::NotFound);
        }
        let id = alloc_id(&mut self.next);
        let event = Event {
            id,
            association_id: payload.association_id,
            title: payload.title,
            capacity: payload.capacity,
            attendees: Vec::new(),
            created_at: now,
        };
        proof {
            assert(event.attendees.deep_view() =~= Seq::<Seq<char>>::empty());
            lemma_event_enc_len(event@);
        }
        self.events.put(&event);
        proof {
            lemma_store_bounds_bumped(*old(self), id);
            lemma_dom_bounded_grow(old(self).events_m(), id, event@, id, (id + 1) as u64);
        }
        Ok(event)
    }

    /// Every event, in ascending identifier order; an empty store is an
    /// error, never an empty listing.
    pub fn get_events(&self) -> (r: Result<Vec<Event>, RepoError>)
        requires
            self.wf(),
        ensures
            r is Ok <==> self.events_m() != Map::<u64, EventV>::empty(),
            match r {
                Ok(v) => v@.len() > 0 && listing_of(v@, self.events_m()),
                Err(e) => e == RepoError::NotFound,
            },
    {
        let all = self.events.list();
        if all.is_empty() {
            Err(RepoError::NotFound)
        } else {
            Ok(all)
        }
    }

    /// The event stored under the identifier.
    pub fn get_event_by_id(&self, id: u64) -> (r: Result<Event, RepoError>)
        requires
            self.wf(),
        ensures
            r is Ok <==> self.events_m().dom().contains(id),
            match r {
                Ok(ev) => ev@ == self.events_m()[id],
                Err(e) => e == RepoError::NotFound,
            },
    {
        match self.events.get(id) {
            Some(ev) => Ok(ev),
            None => Err(RepoError::NotFound),
        }
    }

    /// Records an alumni member's attendance at an event, by their unique
    /// email, after checking that both exist, that the member has not
    /// answered already, and that the event is not full.
    pub fn rsvp_event(&mut self, event_id: u64, alumni_id: u64) -> (r: Result<Event, RepoError>)
        requires
            old(self).wf(),
            (old(self).events_m().dom().contains(event_id) && old(
                self,
            ).alumni_m().dom().contains(alumni_id)) ==> event_enc_len(
                old(self).events_m()[event_id].title,
                old(self).events_m()[event_id].attendees.push(
                    old(self).alumni_m()[alumni_id].email,
                ),
            ) <= MAX_RECORD_BYTES as int,
        ensures
            final(self).wf(),
            final(self).next_id() == old(self).next_id(),
            r is Ok <==> (old(self).events_m().dom().contains(event_id) && old(
                self,
            ).alumni_m().dom().contains(alumni_id) && !old(self).events_m()[
                event_id
            ].attendees.contains(old(self).alumni_m()[alumni_id].email) && old(self).events_m()[
                event_id
            ].attendees.len() < old(self).events_m()[event_id].capacity),
            match r {
                Ok(ev) => {
                    &&& ev@ == (EventV {
                        attendees: old(self).events_m()[event_id].attendees.push(
                            old(self).alumni_m()[alumni_id].email,
                        ),
                        ..old(self).events_m()[event_id]
                    })
                    &&& final(self).events_m() == old(self).events_m().insert(event_id, ev@)
                    &&& final(self).alumni_m() == old(self).alumni_m()
                    &&& final(self).associations_m() == old(self).associations_m()
                    &&& final(self).messages_m() == old(self).messages_m()
                    &&& final(self).mentorships_m() == old(self).mentorships_m()
                    &&& Store::realty_unchanged(*old(self), *final(self))
                },
                Err(e) => {
                    &&& *final(self) == *old(self)
                    &&& (e == RepoError::NotFound <==> (!old(self).events_m().dom().contains(
                        event_id,
                    ) || !old(self).alumni_m().dom().contains(alumni_id)))
                    &&& (e == RepoError::InvalidPayload <==> (old(
                        self,
                    ).events_m().dom().contains(event_id) && old(self).alumni_m().dom().contains(
                        alumni_id,
                    ) && (old(self).events_m()[event_id].attendees.contains(
                        old(self).alumni_m()[alumni_id].email,
                    ) || old(self).events_m()[event_id].attendees.len() >= old(self).events_m()[
                        event_id
                    ].capacity)))
                },
            },
    {
        let mut event = match self.events.get(event_id) {
            Some(ev) => ev,
            None => {
                return Err(RepoError::NotFound);
            },
        };
        let member = match self.alumni.get(alumni_id) {
            Some(a) => a,
            None => {
                return Err(RepoError::NotFound);
            },
        };
        if texts_contain(&event.attendees, &member.email) {
            return Err(RepoError::InvalidPayload);
        }
        let count = event.attendees.len();
        if count as u64 >= event.capacity {
            return Err(RepoError::InvalidPayload);
        }
        let ghost prev = event.attendees.deep_view();
        event.attendees.push(member.email);
        proof {
            assert(event.attendees.deep_view() =~= prev.push(
                old(self).alumni_m()[alumni_id].email,
            ));
            lemma_event_enc_len(event@);
            lemma_dom_bounded_grow(
                old(self).events_m(),
                event_id,
                event@,
                old(self).next_id(),
                old(self).next_id(),
            );
        }
        self.events.put(&event);
        Ok(event)
    }

    /// Records a message an alumni member sends to an association, after
    /// checking that the content is present and that both parties exist.
    pub fn create_message_to_association(&mut self, payload: MessagePayload, now: u64) -> (r:
        Result<MessageToAssociation, RepoError>)
        requires
            old(self).wf(),
            old(self).next_id() < u64::MAX,
            message_enc_len(payload.content@) <= MAX_RECORD_BYTES as int,
        ensures
            final(self).wf(),
            r is Ok <==> (payload.content@.len() > 0 && old(self).alumni_m().dom().contains(
                payload.alumni_id,
            ) && old(self).associations_m().dom().contains(payload.association_id)),
            match r {
                Ok(m) => {
                    &&& m@ == (MessageToAssociationV {
                        id: old(self).next_id(),
                        association_id: payload.association_id,
                        alumni_id: payload.alumni_id,
                        content: payload.content@,
                        created_at: now,
                    })
                    &&& final(self).messages_m() == old(self).messages_m().insert(m@.id, m@)
                    &&& final(self).next_id() == old(self).next_id() + 1
                    &&& final(self).alumni_m() == old(self).alumni_m()
                    &&& final(self).associations_m() == old(self).associations_m()
                    &&& final(self).events_m() == old(self).events_m()
                    &&& final(self).mentorships_m() == old(self).mentorships_m()
                    &&& Store::realty_unchanged(*old(self), *final(self))
                },
                Err(e) => {
                    &&& *final(self) == *old(self)
                    &&& (e == RepoError::InvalidPayload <==> payload.content@.len() == 0)
                    &&& (e == RepoError::NotFound <==> (payload.content@.len() > 0 && (!old(
                        self,
                    ).alumni_m().dom().contains(payload.alumni_id) || !old(
                        self,
                    ).associations_m().dom().contains(payload.association_id))))
                },
            },
    {
        if payload.content.as_str().unicode_len() == 0 {
            return Err(RepoError::InvalidPayload);
        }
        if !self.alumni.contains(payload.alumni_id) {
            return Err(RepoError::NotFound);
        }
        if !self.associations.contains(payload.association_id) {
            return Err(RepoError::NotFound);
        }
        let id = alloc_id(&mut self.next);
        let message = MessageToAssociation {
            id,
            association_id: payload.association_id,
            alumni_id: payload.alumni_id,
            content: payload.content,
            created_at: now,
        };
        proof {
            lemma_message_enc_len(message@);
        }
        self.messages.put(&message);
        proof {
            lemma_store_bounds_bumped(*old(self), id);
            lemma_dom_bounded_grow(old(self).messages_m(), id, message@, id, (id + 1) as u64);
        }
        Ok(message)
    }

    /// Every message, in ascending identifier order; an empty store is an
    /// error, never an empty listing.
    pub fn get_messages(&self) -> (r: Result<Vec<MessageToAssociation>, RepoError>)
        requires
            self.wf(),
        ensures
            r is Ok <==> self.messages_m() != Map::<u64, MessageToAssociationV>::empty(),
            match r {
                Ok(v) => v@.len() > 0 && listing_of(v@, self.messages_m()),
                Err(e) => e == RepoError::NotFound,
            },
    {
        let all = self.messages.list();
        if all.is_empty() {
            Err(RepoError::NotFound)
        } else {
            Ok(all)
        }
    }

    /// The message stored under the identifier.
    pub fn get_message_by_id(&self, id: u64) -> (r: Result<MessageToAssociation, RepoError>)
        requires
            self.wf(),
        ensures
            r is Ok <==> self.messages_m().dom().contains(id),
            match r {
                Ok(m) => m@ == self.messages_m()[id],
                Err(e) => e == RepoError::NotFound,
            },
    {
        match self.messages.get(id) {
            Some(m) => Ok(m),
            None => Err(RepoError::NotFound),
        }
    }

    /// Files a mentorship request in its initial pending state, after
    /// checking that the topic is present and that both alumni exist.
    pub fn create_mentorship_request(&mut self, payload: MentorshipPayload, now: u64) -> (r: Result<
        MentorshipRequest,
        RepoError,
    >)
        requires
            old(self).wf(),
            old(self).next_id() < u64::MAX,
            mentorship_enc_len(payload.topic@) <= MAX_RECORD_BYTES as int,
        ensures
            final(self).wf(),
            r is Ok <==> (payload.topic@.len() > 0 && old(self).alumni_m().dom().contains(
                payload.alumni_id,
            ) && old(self).alumni_m().dom().contains(payload.mentor_id)),
            match r {
                Ok(m) => {
                    &&& m@ == (MentorshipRequestV {
                        id: old(self).next_id(),
                        alumni_id: payload.alumni_id,
                        mentor_id: payload.mentor_id,
                        topic: payload.topic@,
                        status: RequestStatus::Pending,
                        created_at: now,
                    })
                    &&& final(self).mentorships_m() == old(self).mentorships_m().insert(m@.id, m@)
                    &&& final(self).next_id() == old(self).next_id() + 1
                    &&& final(self).alumni_m() == old(self).alumni_m()
                    &&& final(self).associations_m() == old(self).associations_m()
                    &&& final(self).events_m() == old(self).events_m()
                    &&& final(self).messages_m() == old(self).messages_m()
                    &&& Store::realty_unchanged(*old(self), *final(self))
                },
                Err(e) => {
                    &&& *final(self) == *old(self)
                    &&& (e == RepoError::InvalidPayload <==> payload.topic@.len() == 0)
                    &&& (e == RepoError::NotFound <==> (payload.topic@.len() > 0 && (!old(
                        self,
                    ).alumni_m().dom().contains(payload.alumni_id) || !old(
                        self,
                    ).alumni_m().dom().contains(payload.mentor_id))))
                },
            },
    {
        if payload.topic.as_str().unicode_len() == 0 {
            return Err(RepoError::InvalidPayload);
        }
        if !self.alumni.contains(payload.alumni_id) {
            return Err(RepoError::NotFound);
        }
        if !self.alumni.contains(payload.mentor_id) {
            return Err(RepoError::NotFound);
        }
        let id = alloc_id(&mut self.next);
        let request = MentorshipRequest {
            id,
            alumni_id: payload.alumni_id,
            mentor_id: payload.mentor_id,
            topic: payload.topic,
            status: RequestStatus::Pending,
            created_at: now,
        };
        proof {
            lemma_mentorship_enc_len(request@);
        }
        self.mentorships.put(&request);
        proof {
            lemma_store_bounds_bumped(*old(self), id);
            lemma_dom_bounded_grow(old(self).mentorships_m(), id, request@, id, (id + 1) as u64);
        }
        Ok(request)
    }

    /// Moves a pending mentorship request to approved, the one transition of
    /// its lifecycle.
    pub fn approve_mentorship_request(&mut self, request_id: u64) -> (r: Result<
        MentorshipRequest,
        RepoError,
    >)
        requires
            old(self).wf(),
        ensures
            final(self).wf(),
            final(self).next_id() == old(self).next_id(),
            r is Ok <==> (old(self).mentorships_m().dom().contains(request_id) && old(
                self,
            ).mentorships_m()[request_id].status == RequestStatus::Pending),
            match r {
                Ok(m) => {
                    &&& m@ == (MentorshipRequestV {
                        status: RequestStatus::Approved,
                        ..old(self).mentorships_m()[request_id]
                    })
                    &&& final(self).mentorships_m() == old(self).mentorships_m().insert(
                        request_id,
                        m@,
                    )
                    &&& final(self).alumni_m() == old(self).alumni_m()
                    &&& final(self).associations_m() == old(self).associations_m()
                    &&& final(self).events_m() == old(self).events_m()
                    &&& final(self).messages_m() == old(self).messages_m()
                    &&& Store::realty_unchanged(*old(self), *final(self))
                },
                Err(e) => {
                    &&& *final(self) == *old(self)
                    &&& (e == RepoError::NotFound <==> !old(self).mentorships_m().dom().contains(
                        request_id,
                    ))
                    &&& (e == RepoError::InvalidPayload <==> (old(
                        self,
                    ).mentorships_m().dom().contains(request_id) && old(self).mentorships_m()[
                        request_id
                    ].status != RequestStatus::Pending))
                },
            },
    {
        let mut request = match self.mentorships.get(request_id) {
            Some(m) => m,
            None => {
                return Err(RepoError::NotFound);
            },
        };
        match request.status {
            RequestStatus::Pending => {},
            RequestStatus::Approved => {
                return Err(RepoError::InvalidPayload);
            },
        }
        request.status = RequestStatus::Approved;
        proof {
            lemma_mentorship_enc_len(request@);
            lemma_mentorship_enc_len(old(self).mentorships_m()[request_id]);
            lemma_dom_bounded_grow(
                old(self).mentorships_m(),
                request_id,
                request@,
                old(self).next_id(),
                old(self).next_id(),
            );
        }
        self.mentorships.put(&request);
        Ok(request)
    }

    /// Every mentorship request, in ascending identifier order; an empty
    /// store is an error, never an empty listing.
    pub fn get_mentorship_requests(&self) -> (r: Result<Vec<MentorshipRequest>, RepoError>)
        requires
            self.wf(),
        ensures
            r is Ok <==> self.mentorships_m() != Map::<u64, MentorshipRequestV>::empty(),
            match r {
                Ok(v) => v@.len() > 0 && listing_of(v@, self.mentorships_m()),
                Err(e) => e == RepoError::NotFound,
            },
    {
        let all = self.mentorships.list();
        if all.is_empty() {
            Err(RepoError::NotFound)
        } else {
            Ok(all)
        }
    }

    /// The mentorship request stored under the identifier.
    pub fn get_mentorship_request_by_id(&self, id: u64) -> (r: Result<
        MentorshipRequest,
        RepoError,
    >)
        requires
            self.wf(),
        ensures
            r is Ok <==> self.mentorships_m().dom().contains(id),
            match r {
                Ok(m) => m@ == self.mentorships_m()[id],
                Err(e) => e == RepoError::NotFound,
            },
    {
        match self.mentorships.get(id) {
            Some(m) => Ok(m),
            None => Err(RepoError::NotFound),
        }
    }
}

} // verus!

use stable_registry::campus::{
    AlumniPayload, AssociationPayload, EventPayload, MentorshipPayload, MessagePayload,
};
use stable_registry::records::RequestStatus;
use stable_registry::store::{RepoError, Store};

fn alumni_payload(name: &str, email: &str) -> AlumniPayload {
    AlumniPayload { name: name.to_string(), email: email.to_string() }
}

fn event_payload(association_id: u64, title: &str, capacity: u64) -> EventPayload {
    EventPayload { association_id, title: title.to_string(), capacity }
}

#[test]
fn alumni_round_trips_through_lookup() {
    let mut store = Store::new();
    let created = store.create_alumni(alumni_payload("S\u{f8}ren", "soren@alum.example.org"), 5).unwrap();
    let fetched = store.get_alumni_by_id(created.id).unwrap();
    assert_eq!(fetched.id, created.id);
    assert_eq!(fetched.name, "S\u{f8}ren");
    assert_eq!(fetched.email, "soren@alum.example.org");
    assert_eq!(fetched.created_at, 5);
}

#[test]
fn association_round_trips_and_starts_empty() {
    let mut store = Store::new();
    let created = store
        .create_association(AssociationPayload { name: "Chess Circle".to_string() }, 3)
        .unwrap();
    let fetched = store.get_association_by_id(created.id).unwrap();
    assert_eq!(fetched.name, "Chess Circle");
    assert!(fetched.alumnis.is_empty());
}

#[test]
fn association_with_empty_name_is_rejected() {
    let mut store = Store::new();
    let err = store
        .create_association(AssociationPayload { name: String::new() }, 1)
        .unwrap_err();
    assert_eq!(err, RepoError::InvalidPayload);
}

#[test]
fn event_against_unknown_association_is_not_found() {
    let mut store = Store::new();
    let err = store.create_event(event_payload(42, "Reunion", 10), 1).unwrap_err();
    assert_eq!(err, RepoError::NotFound);
}

#[test]
fn event_with_zero_capacity_is_rejected() {
    let mut store = Store::new();
    let assoc = store
        .create_association(AssociationPayload { name: "Chess Circle".to_string() }, 1)
        .unwrap();
    let err = store.create_event(event_payload(assoc.id, "Reunion", 0), 2).unwrap_err();
    assert_eq!(err, RepoError::InvalidPayload);
}

#[test]
fn event_round_trips_through_lookup() {
    let mut store = Store::new();
    let assoc = store
        .create_association(AssociationPayload { name: "Chess Circle".to_string() }, 1)
        .unwrap();
    let created = store.create_event(event_payload(assoc.id, "Reunion", 2), 4).unwrap();
    let fetched = store.get_event_by_id(created.id).unwrap();
    assert_eq!(fetched.association_id, assoc.id);
    assert_eq!(fetched.title, "Reunion");
    assert_eq!(fetched.capacity, 2);
    assert!(fetched.attendees.is_empty());
    assert_eq!(fetched.created_at, 4);
}

#[test]
fn rsvp_twice_by_the_same_alumni_fails_the_second_time() {
    let mut store = Store::new();
    let assoc = store
        .create_association(AssociationPayload { name: "Chess Circle".to_string() }, 1)
        .unwrap();
    let member = store.create_alumni(alumni_payload("Ann", "ann@alum.example.org"), 2).unwrap();
    let event = store.create_event(event_payload(assoc.id, "Reunion", 10), 3).unwrap();
    let first = store.rsvp_event(event.id, member.id).unwrap();
    assert_eq!(first.attendees, vec!["ann@alum.example.org".to_string()]);
    let err = store.rsvp_event(event.id, member.id).unwrap_err();
    assert_eq!(err, RepoError::InvalidPayload);
    assert_eq!(store.get_event_by_id(event.id).unwrap().attendees.len(), 1);
}

#[test]
fn rsvp_at_capacity_fails() {
    let mut store = Store::new();
    let assoc = store
        .create_association(AssociationPayload { name: "Chess Circle".to_string() }, 1)
        .unwrap();
    let a = store.create_alumni(alumni_payload("Ann", "ann@alum.example.org"), 2).unwrap();
    let b = store.create_alumni(alumni_payload("Bob", "bob@alum.example.org"), 3).unwrap();
    let event = store.create_event(event_payload(assoc.id, "Reunion", 1), 4).unwrap();
    store.rsvp_event(event.id, a.id).unwrap();
    let err = store.rsvp_event(event.id, b.id).unwrap_err();
    assert_eq!(err, RepoError::InvalidPayload);
}

#[test]
fn rsvp_against_unknown_event_or_alumni_is_not_found() {
    let mut store = Store::new();
    let assoc = store
        .create_association(AssociationPayload { name: "Chess Circle".to_string() }, 1)
        .unwrap();
    let member = store.create_alumni(alumni_payload("Ann", "ann@alum.example.org"), 2).unwrap();
    let event = store.create_event(event_payload(assoc.id, "Reunion", 5), 3).unwrap();
    assert_eq!(store.rsvp_event(99, member.id).unwrap_err(), RepoError::NotFound);
    assert_eq!(store.rsvp_event(event.id, 99).unwrap_err(), RepoError::NotFound);
}

#[test]
fn joining_an_association_twice_fails() {
    let mut store = Store::new();
    let assoc = store
        .create_association(AssociationPayload { name: "Chess Circle".to_string() }, 1)
        .unwrap();
    let member = store.create_alumni(alumni_payload("Ann", "ann@alum.example.org"), 2).unwrap();
    let joined = store.join_association(assoc.id, member.id).unwrap();
    assert_eq!(joined.alumnis, vec![member.id]);
    let err = store.join_association(assoc.id, member.id).unwrap_err();
    assert_eq!(err, RepoError::InvalidPayload);
    assert_eq!(store.get_association_by_id(assoc.id).unwrap().alumnis, vec![member.id]);
}

#[test]
fn leaving_an_association_removes_the_member_once() {
    let mut store = Store::new();
    let assoc = store
        .create_association(AssociationPayload { name: "Chess Circle".to_string() }, 1)
        .unwrap();
    let a = store.create_alumni(alumni_payload("Ann", "ann@alum.example.org"), 2).unwrap();
    let b = store.create_alumni(alumni_payload("Bob", "bob@alum.example.org"), 3).unwrap();
    store.join_association(assoc.id, a.id).unwrap();
    store.join_association(assoc.id, b.id).unwrap();
    let left = store.leave_association(assoc.id, a.id).unwrap();
    assert_eq!(left.alumnis, vec![b.id]);
    let err = store.leave_association(assoc.id, a.id).unwrap_err();
    assert_eq!(err, RepoError::InvalidPayload);
    assert_eq!(store.leave_association(99, b.id).unwrap_err(), RepoError::NotFound);
}

#[test]
fn duplicate_alumni_email_is_rejected() {
    let mut store = Store::new();
    store.create_alumni(alumni_payload("Ann", "ann@alum.example.org"), 1).unwrap();
    let err = store.create_alumni(alumni_payload("Anne", "ann@alum.example.org"), 2).unwrap_err();
    assert_eq!(err, RepoError::InvalidPayload);
}

#[test]
fn message_to_association_round_trips() {
    let mut store = Store::new();
    let assoc = store
        .create_association(AssociationPayload { name: "Chess Circle".to_string() }, 1)
        .unwrap();
    let member = store.create_alumni(alumni_payload("Ann", "ann@alum.example.org"), 2).unwrap();
    let msg = store
        .create_message_to_association(
            MessagePayload {
                association_id: assoc.id,
                alumni_id: member.id,
                content: "See you at the reunion".to_string(),
            },
            3,
        )
        .unwrap();
    let fetched = store.get_message_by_id(msg.id).unwrap();
    assert_eq!(fetched.association_id, assoc.id);
    assert_eq!(fetched.alumni_id, member.id);
    assert_eq!(fetched.content, "See you at the reunion");
}

#[test]
fn message_with_empty_content_is_rejected() {
    let mut store = Store::new();
    let assoc = store
        .create_association(AssociationPayload { name: "Chess Circle".to_string() }, 1)
        .unwrap();
    let member = store.create_alumni(alumni_payload("Ann", "ann@alum.example.org"), 2).unwrap();
    let err = store
        .create_message_to_association(
            MessagePayload {
                association_id: assoc.id,
                alumni_id: member.id,
                content: String::new(),
            },
            3,
        )
        .unwrap_err();
    assert_eq!(err, RepoError::InvalidPayload);
}

#[test]
fn mentorship_request_starts_pending_and_approves_once() {
    let mut store = Store::new();
    let a = store.create_alumni(alumni_payload("Ann", "ann@alum.example.org"), 1).unwrap();
    let b = store.create_alumni(alumni_payload("Bob", "bob@alum.example.org"), 2).unwrap();
    let req = store
        .create_mentorship_request(
            MentorshipPayload {
                alumni_id: a.id,
                mentor_id: b.id,
                topic: "career advice".to_string(),
            },
            3,
        )
        .unwrap();
    assert_eq!(req.status, RequestStatus::Pending);
    let approved = store.approve_mentorship_request(req.id).unwrap();
    assert_eq!(approved.status, RequestStatus::Approved);
    assert_eq!(approved.topic, "career advice");
    let err = store.approve_mentorship_request(req.id).unwrap_err();
    assert_eq!(err, RepoError::InvalidPayload);
    assert_eq!(
        store.get_mentorship_request_by_id(req.id).unwrap().status,
        RequestStatus::Approved
    );
}

#[test]
fn approving_an_unknown_request_is_not_found() {
    let mut store = Store::new();
    assert_eq!(store.approve_mentorship_request(7).unwrap_err(), RepoError::NotFound);
}

#[test]
fn mentorship_against_unknown_alumni_is_not_found() {
    let mut store = Store::new();
    let a = store.create_alumni(alumni_payload("Ann", "ann@alum.example.org"), 1).unwrap();
    let err = store
        .create_mentorship_request(
            MentorshipPayload { alumni_id: a.id, mentor_id: 50, topic: "advice".to_string() },
            2,
        )
        .unwrap_err();
    assert_eq!(err, RepoError::NotFound);
}

#[test]
fn empty_campus_listings_fail_with_not_found() {
    let store = Store::new();
    assert_eq!(store.get_alumnis().unwrap_err(), RepoError::NotFound);
    assert_eq!(store.get_associations().unwrap_err(), RepoError::NotFound);
    assert_eq!(store.get_events().unwrap_err(), RepoError::NotFound);
    assert_eq!(store.get_messages().unwrap_err(), RepoError::NotFound);
    assert_eq!(store.get_mentorship_requests().unwrap_err(), RepoError::NotFound);
}

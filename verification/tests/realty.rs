use stable_registry::realty::{
    MoneyTransactionPayload, OwnerPayload, PropertyPayload, SearchPropertyPayload,
    TransactionPayload,
};
use stable_registry::store::{RepoError, Store};

fn owner_payload(name: &str, email: &str) -> OwnerPayload {
    OwnerPayload { name: name.to_string(), email: email.to_string() }
}

fn property_payload(owner_id: u64, address: &str, description: &str) -> PropertyPayload {
    PropertyPayload {
        owner_id,
        address: address.to_string(),
        description: description.to_string(),
    }
}

#[test]
fn identifiers_are_distinct_and_increasing_across_types() {
    let mut store = Store::new();
    let a = store.create_owner(owner_payload("Ann", "ann@example.com"), 10).unwrap();
    let b = store.create_owner(owner_payload("Bob", "bob@example.com"), 11).unwrap();
    let p = store.create_property(property_payload(a.id, "1 Main St", "house"), 12).unwrap();
    let m = store
        .create_money_transaction(
            MoneyTransactionPayload {
                from_owner_id: a.id,
                to_owner_id: b.id,
                amount: 5,
                transaction_date: 1,
            },
            13,
        )
        .unwrap();
    assert_eq!(a.id, 0);
    assert_eq!(b.id, 1);
    assert_eq!(p.id, 2);
    assert_eq!(m.id, 3);
}

#[test]
fn created_owner_round_trips_through_lookup() {
    let mut store = Store::new();
    let created = store.create_owner(owner_payload("Zo\u{eb} N.", "zoe@example.com"), 42).unwrap();
    let fetched = store.get_owner_by_id(created.id).unwrap();
    assert_eq!(fetched.id, created.id);
    assert_eq!(fetched.name, "Zo\u{eb} N.");
    assert_eq!(fetched.email, "zoe@example.com");
    assert_eq!(fetched.created_at, 42);
}

#[test]
fn created_property_round_trips_through_lookup() {
    let mut store = Store::new();
    let owner = store.create_owner(owner_payload("Ann", "ann@example.com"), 1).unwrap();
    let created = store
        .create_property(property_payload(owner.id, "12 Quai de la Gare \u{1f3e0}", "r\u{e9}nov\u{e9}"), 7)
        .unwrap();
    let fetched = store.get_property_by_id(created.id).unwrap();
    assert_eq!(fetched.id, created.id);
    assert_eq!(fetched.owner_id, owner.id);
    assert_eq!(fetched.address, "12 Quai de la Gare \u{1f3e0}");
    assert_eq!(fetched.description, "r\u{e9}nov\u{e9}");
    assert_eq!(fetched.created_at, 7);
}

#[test]
fn created_transaction_round_trips_through_lookup() {
    let mut store = Store::new();
    let a = store.create_owner(owner_payload("Ann", "ann@example.com"), 1).unwrap();
    let b = store.create_owner(owner_payload("Bob", "bob@example.com"), 2).unwrap();
    let p = store.create_property(property_payload(a.id, "1 Main St", "house"), 3).unwrap();
    let t = store
        .transfer_property(
            TransactionPayload {
                property_id: p.id,
                from_owner_id: a.id,
                to_owner_id: b.id,
                transaction_date: 99,
                amount: 250,
            },
            4,
        )
        .unwrap();
    let fetched = store.get_transaction_by_id(t.id).unwrap();
    assert_eq!(fetched.id, t.id);
    assert_eq!(fetched.property_id, p.id);
    assert_eq!(fetched.from_owner_id, a.id);
    assert_eq!(fetched.to_owner_id, b.id);
    assert_eq!(fetched.transaction_date, 99);
    assert_eq!(fetched.amount, 250);
    assert_eq!(fetched.created_at, 4);
}

#[test]
fn created_money_transaction_round_trips_through_lookup() {
    let mut store = Store::new();
    let a = store.create_owner(owner_payload("Ann", "ann@example.com"), 1).unwrap();
    let b = store.create_owner(owner_payload("Bob", "bob@example.com"), 2).unwrap();
    let m = store
        .create_money_transaction(
            MoneyTransactionPayload {
                from_owner_id: a.id,
                to_owner_id: b.id,
                amount: 77,
                transaction_date: 5,
            },
            6,
        )
        .unwrap();
    let fetched = store.get_money_transaction_by_id(m.id).unwrap();
    assert_eq!(fetched.id, m.id);
    assert_eq!(fetched.from_owner_id, a.id);
    assert_eq!(fetched.to_owner_id, b.id);
    assert_eq!(fetched.amount, 77);
    assert_eq!(fetched.transaction_date, 5);
    assert_eq!(fetched.created_at, 6);
}

#[test]
fn empty_store_listings_and_search_fail_with_not_found() {
    let store = Store::new();
    assert_eq!(store.get_properties().unwrap_err(), RepoError::NotFound);
    assert_eq!(store.get_owners().unwrap_err(), RepoError::NotFound);
    assert_eq!(store.get_transactions().unwrap_err(), RepoError::NotFound);
    assert_eq!(store.get_money_transactions().unwrap_err(), RepoError::NotFound);
    let search = store
        .search_properties(SearchPropertyPayload { address: None, owner_id: None })
        .unwrap_err();
    assert_eq!(search, RepoError::NotFound);
}

#[test]
fn property_with_unknown_owner_is_rejected() {
    let mut store = Store::new();
    let err = store.create_property(property_payload(99, "1 Main St", "house"), 1).unwrap_err();
    assert_eq!(err, RepoError::NotFound);
}

#[test]
fn property_with_empty_fields_is_rejected() {
    let mut store = Store::new();
    let owner = store.create_owner(owner_payload("Ann", "ann@example.com"), 1).unwrap();
    let err = store.create_property(property_payload(owner.id, "", "house"), 2).unwrap_err();
    assert_eq!(err, RepoError::InvalidPayload);
    let err = store.create_property(property_payload(owner.id, "1 Main St", ""), 3).unwrap_err();
    assert_eq!(err, RepoError::InvalidPayload);
}

#[test]
fn owner_with_malformed_email_is_rejected() {
    let mut store = Store::new();
    for email in ["no-at-sign.example.com", "two@@example.com", "a b@example.com", "a@nodot", "@example.com", "a@.", "a@x."] {
        let err = store.create_owner(owner_payload("Ann", email), 1).unwrap_err();
        assert_eq!(err, RepoError::InvalidPayload, "email accepted: {email}");
    }
    assert!(store.create_owner(owner_payload("Ann", "ann.b@mail.example.org"), 1).is_ok());
}

#[test]
fn duplicate_owner_email_is_rejected_distinct_emails_succeed() {
    let mut store = Store::new();
    store.create_owner(owner_payload("Ann", "ann@example.com"), 1).unwrap();
    let err = store.create_owner(owner_payload("Anne", "ann@example.com"), 2).unwrap_err();
    assert_eq!(err, RepoError::InvalidPayload);
    assert!(store.create_owner(owner_payload("Bob", "bob@example.com"), 3).is_ok());
}

#[test]
fn transfer_by_non_owner_is_unauthorized() {
    let mut store = Store::new();
    let a = store.create_owner(owner_payload("Ann", "ann@example.com"), 1).unwrap();
    let b = store.create_owner(owner_payload("Bob", "bob@example.com"), 2).unwrap();
    let p = store.create_property(property_payload(a.id, "1 Main St", "house"), 3).unwrap();
    let err = store
        .transfer_property(
            TransactionPayload {
                property_id: p.id,
                from_owner_id: b.id,
                to_owner_id: a.id,
                transaction_date: 0,
                amount: 1,
            },
            4,
        )
        .unwrap_err();
    assert_eq!(err, RepoError::Unauthorized);
}

#[test]
fn transfer_to_yourself_is_unauthorized() {
    let mut store = Store::new();
    let a = store.create_owner(owner_payload("Ann", "ann@example.com"), 1).unwrap();
    let p = store.create_property(property_payload(a.id, "1 Main St", "house"), 2).unwrap();
    let err = store
        .transfer_property(
            TransactionPayload {
                property_id: p.id,
                from_owner_id: a.id,
                to_owner_id: a.id,
                transaction_date: 0,
                amount: 1,
            },
            3,
        )
        .unwrap_err();
    assert_eq!(err, RepoError::Unauthorized);
}

#[test]
fn transfer_of_unknown_property_or_owner_is_not_found() {
    let mut store = Store::new();
    let a = store.create_owner(owner_payload("Ann", "ann@example.com"), 1).unwrap();
    let p = store.create_property(property_payload(a.id, "1 Main St", "house"), 2).unwrap();
    let err = store
        .transfer_property(
            TransactionPayload {
                property_id: 99,
                from_owner_id: a.id,
                to_owner_id: a.id,
                transaction_date: 0,
                amount: 1,
            },
            3,
        )
        .unwrap_err();
    assert_eq!(err, RepoError::NotFound);
    let err = store
        .transfer_property(
            TransactionPayload {
                property_id: p.id,
                from_owner_id: a.id,
                to_owner_id: 77,
                transaction_date: 0,
                amount: 1,
            },
            3,
        )
        .unwrap_err();
    assert_eq!(err, RepoError::NotFound);
}

#[test]
fn transfer_scenario_reassigns_ownership_and_records_one_transaction() {
    let mut store = Store::new();
    let a = store.create_owner(owner_payload("Owner A", "a@example.com"), 1).unwrap();
    let b = store.create_owner(owner_payload("Owner B", "b@example.com"), 2).unwrap();
    assert_eq!(a.id, 0);
    assert_eq!(b.id, 1);
    let p = store.create_property(property_payload(0, "1 Main St", "main house"), 3).unwrap();
    assert_eq!(p.id, 2);
    let t = store
        .transfer_property(
            TransactionPayload {
                property_id: 2,
                from_owner_id: 0,
                to_owner_id: 1,
                transaction_date: 8,
                amount: 100,
            },
            9,
        )
        .unwrap();
    assert_eq!(t.id, 3);
    assert_eq!(t.property_id, 2);
    assert_eq!(t.from_owner_id, 0);
    assert_eq!(t.to_owner_id, 1);
    assert_eq!(t.amount, 100);
    assert_eq!(store.get_property_by_id(2).unwrap().owner_id, 1);
    let all = store.get_transactions().unwrap();
    assert_eq!(all.len(), 1);
    assert_eq!(all[0].id, 3);
}

#[test]
fn money_transfer_to_yourself_is_unauthorized() {
    let mut store = Store::new();
    let a = store.create_owner(owner_payload("Ann", "ann@example.com"), 1).unwrap();
    let err = store
        .create_money_transaction(
            MoneyTransactionPayload {
                from_owner_id: a.id,
                to_owner_id: a.id,
                amount: 5,
                transaction_date: 0,
            },
            2,
        )
        .unwrap_err();
    assert_eq!(err, RepoError::Unauthorized);
}

#[test]
fn listings_come_back_in_ascending_identifier_order() {
    let mut store = Store::new();
    store.create_owner(owner_payload("Ann", "ann@example.com"), 1).unwrap();
    store.create_owner(owner_payload("Bob", "bob@example.com"), 2).unwrap();
    store.create_owner(owner_payload("Cid", "cid@example.com"), 3).unwrap();
    let owners = store.get_owners().unwrap();
    assert_eq!(owners.len(), 3);
    assert!(owners.windows(2).all(|w| w[0].id < w[1].id));
}

#[test]
fn search_filters_by_substring_and_owner() {
    let mut store = Store::new();
    let a = store.create_owner(owner_payload("Ann", "ann@example.com"), 1).unwrap();
    let b = store.create_owner(owner_payload("Bob", "bob@example.com"), 2).unwrap();
    store.create_property(property_payload(a.id, "1 Main St", "house"), 3).unwrap();
    store.create_property(property_payload(b.id, "2 Main St", "flat"), 4).unwrap();
    store.create_property(property_payload(b.id, "9 Side Rd", "barn"), 5).unwrap();

    let by_text = store
        .search_properties(SearchPropertyPayload {
            address: Some("Main".to_string()),
            owner_id: None,
        })
        .unwrap();
    assert_eq!(by_text.len(), 2);

    let both = store
        .search_properties(SearchPropertyPayload {
            address: Some("Main".to_string()),
            owner_id: Some(b.id),
        })
        .unwrap();
    assert_eq!(both.len(), 1);
    assert_eq!(both[0].address, "2 Main St");

    let none = store
        .search_properties(SearchPropertyPayload {
            address: Some("Harbor".to_string()),
            owner_id: None,
        })
        .unwrap_err();
    assert_eq!(none, RepoError::NotFound);
}

#[test]
fn lookup_of_unknown_identifiers_is_not_found() {
    let store = Store::new();
    assert_eq!(store.get_property_by_id(0).unwrap_err(), RepoError::NotFound);
    assert_eq!(store.get_owner_by_id(0).unwrap_err(), RepoError::NotFound);
    assert_eq!(store.get_transaction_by_id(0).unwrap_err(), RepoError::NotFound);
    assert_eq!(store.get_money_transaction_by_id(0).unwrap_err(), RepoError::NotFound);
}

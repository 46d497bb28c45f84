//! The entity record types and their byte encodings. Each type has an
//! abstract view (identifiers and timestamps as they are, text as character
//! sequences), an exact encoding into the flat record format, and a decoder
//! proved to invert it.

use crate::codec::{
    cat_texts, enc_text, enc_text_list, enc_u64, enc_u64_list, lemma_cat_u64s_len,
    lemma_enc_u64_len, lemma_read_enc_u64, lemma_split_head, put_text, put_text_list, put_u64,
    put_u64_list, take_text, take_text_list, take_u64, take_u64_list,
};
use crate::table::Record;
use vstd::prelude::*;
use vstd::utf8::encode_utf8;

verus! {

/// A registered property: its owner and where it stands.
#[derive(Debug)]
pub struct Property {
    pub id: u64,
    pub owner_id: u64,
    pub address: String,
    pub description: String,
    pub created_at: u64,
}

pub ghost struct PropertyV {
    pub id: u64,
    pub owner_id: u64,
    pub address: Seq<char>,
    pub description: Seq<char>,
    pub created_at: u64,
}

impl View for Property {
    type V = PropertyV;

    open spec fn view(&self) -> PropertyV {
        PropertyV {
            id: self.id,
            owner_id: self.owner_id,
            address: self.address@,
            description: self.description@,
            created_at: self.created_at,
        }
    }
}

impl Record for Property {
    open spec fn enc(v: PropertyV) -> Seq<u8> {
        enc_u64(v.id) + enc_u64(v.owner_id) + enc_u64(v.created_at) + enc_text(v.address)
            + enc_text(v.description)
    }

    open spec fn rid(v: PropertyV) -> u64 {
        v.id
    }

    fn key(&self) -> (k: u64) {
        self.id
    }

    fn encode(&self) -> (r: Vec<u8>) {
        let mut out: Vec<u8> = Vec::new();
        put_u64(&mut out, self.id);
        put_u64(&mut out, self.owner_id);
        put_u64(&mut out, self.created_at);
        put_text(&mut out, self.address.as_str());
        put_text(&mut out, self.description.as_str());
        proof {
            assert(out@ =~= Self::enc(self@));
        }
        out
    }

    fn decode(bytes: &Vec<u8>, w: Ghost<PropertyV>) -> (r: Self) {
        let ghost v = w@;
        let ghost p_addr = enc_text(v.address);
        let ghost p_desc = enc_text(v.description);
        proof {
            lemma_enc_u64_len(v.id);
            lemma_enc_u64_len(v.owner_id);
            lemma_enc_u64_len(v.created_at);
            assert(bytes@.subrange(0, bytes@.len() as int) =~= bytes@);
            assert(Self::enc(v) =~= enc_u64(v.id) + (enc_u64(v.owner_id) + (enc_u64(v.created_at)
                + (p_addr + p_desc))));
            lemma_split_head(bytes@, 0, enc_u64(v.id), enc_u64(v.owner_id) + (enc_u64(v.created_at)
                + (p_addr + p_desc)));
            lemma_split_head(bytes@, 8, enc_u64(v.owner_id), enc_u64(v.created_at) + (p_addr
                + p_desc));
            lemma_split_head(bytes@, 16, enc_u64(v.created_at), p_addr + p_desc);
            lemma_split_head(bytes@, 24, p_addr, p_desc);
            lemma_read_enc_u64(bytes@, 0, v.id);
            lemma_read_enc_u64(bytes@, 8, v.owner_id);
            lemma_read_enc_u64(bytes@, 16, v.created_at);
        }
        let id = take_u64(bytes, 0);
        let owner_id = take_u64(bytes, 8);
        let created_at = take_u64(bytes, 16);
        let (address, off) = take_text(bytes, 24, Ghost(v.address));
        let (description, _end) = take_text(bytes, off, Ghost(v.description));
        Property { id, owner_id, address, description, created_at }
    }
}

/// How many bytes a property record with the given text fields occupies.
pub open spec fn property_enc_len(address: Seq<char>, description: Seq<char>) -> int {
    40 + encode_utf8(address).len() as int + encode_utf8(description).len() as int
}

pub proof fn lemma_property_enc_len(v: PropertyV)
    ensures
        Property::enc(v).len() == property_enc_len(v.address, v.description),
{
    lemma_enc_u64_len(v.id);
    lemma_enc_u64_len(v.owner_id);
    lemma_enc_u64_len(v.created_at);
    lemma_enc_u64_len(encode_utf8(v.address).len() as u64);
    lemma_enc_u64_len(encode_utf8(v.description).len() as u64);
}

/// A registered owner, with a unique contact email.
#[derive(Debug)]
pub struct Owner {
    pub id: u64,
    pub name: String,
    pub email: String,
    pub created_at: u64,
}

pub ghost struct OwnerV {
    pub id: u64,
    pub name: Seq<char>,
    pub email: Seq<char>,
    pub created_at: u64,
}

impl View for Owner {
    type V = OwnerV;

    open spec fn view(&self) -> OwnerV {
        OwnerV { id: self.id, name: self.name@, email: self.email@, created_at: self.created_at }
    }
}

impl Record for Owner {
    open spec fn enc(v: OwnerV) -> Seq<u8> {
        enc_u64(v.id) + enc_u64(v.created_at) + enc_text(v.name) + enc_text(v.email)
    }

    open spec fn rid(v: OwnerV) -> u64 {
        v.id
    }

    fn key(&self) -> (k: u64) {
        self.id
    }

    fn encode(&self) -> (r: Vec<u8>) {
        let mut out: Vec<u8> = Vec::new();
        put_u64(&mut out, self.id);
        put_u64(&mut out, self.created_at);
        put_text(&mut out, self.name.as_str());
        put_text(&mut out, self.email.as_str());
        proof {
            assert(out@ =~= Self::enc(self@));
        }
        out
    }

    fn decode(bytes: &Vec<u8>, w: Ghost<OwnerV>) -> (r: Self) {
        let ghost v = w@;
        let ghost p_name = enc_text(v.name);
        let ghost p_email = enc_text(v.email);
        proof {
            lemma_enc_u64_len(v.id);
            lemma_enc_u64_len(v.created_at);
            assert(bytes@.subrange(0, bytes@.len() as int) =~= bytes@);
            assert(Self::enc(v) =~= enc_u64(v.id) + (enc_u64(v.created_at) + (p_name + p_email)));
            lemma_split_head(bytes@, 0, enc_u64(v.id), enc_u64(v.created_at) + (p_name + p_email));
            lemma_split_head(bytes@, 8, enc_u64(v.created_at), p_name + p_email);
            lemma_split_head(bytes@, 16, p_name, p_email);
            lemma_read_enc_u64(bytes@, 0, v.id);
            lemma_read_enc_u64(bytes@, 8, v.created_at);
        }
        let id = take_u64(bytes, 0);
        let created_at = take_u64(bytes, 8);
        let (name, off) = take_text(bytes, 16, Ghost(v.name));
        let (email, _end) = take_text(bytes, off, Ghost(v.email));
        Owner { id, name, email, created_at }
    }
}

/// How many bytes an owner record with the given text fields occupies.
pub open spec fn owner_enc_len(name: Seq<char>, email: Seq<char>) -> int {
    32 + encode_utf8(name).len() as int + encode_utf8(email).len() as int
}

pub proof fn lemma_owner_enc_len(v: OwnerV)
    ensures
        Owner::enc(v).len() == owner_enc_len(v.name, v.email),
{
    lemma_enc_u64_len(v.id);
    lemma_enc_u64_len(v.created_at);
    lemma_enc_u64_len(encode_utf8(v.name).len() as u64);
    lemma_enc_u64_len(encode_utf8(v.email).len() as u64);
}

/// A property transfer: which property moved between which owners, for what
/// amount.
#[derive(Debug)]
pub struct Transaction {
    pub id: u64,
    pub property_id: u64,
    pub from_owner_id: u64,
    pub to_owner_id: u64,
    pub transaction_date: u64,
    pub created_at: u64,
    pub amount: u64,
}

pub ghost struct TransactionV {
    pub id: u64,
    pub property_id: u64,
    pub from_owner_id: u64,
    pub to_owner_id: u64,
    pub transaction_date: u64,
    pub created_at: u64,
    pub amount: u64,
}

impl View for Transaction {
    type V = TransactionV;

    open spec fn view(&self) -> TransactionV {
        TransactionV {
            id: self.id,
            property_id: self.property_id,
            from_owner_id: self.from_owner_id,
            to_owner_id: self.to_owner_id,
            transaction_date: self.transaction_date,
            created_at: self.created_at,
            amount: self.amount,
        }
    }
}

impl Record for Transaction {
    open spec fn enc(v: TransactionV) -> Seq<u8> {
        enc_u64(v.id) + enc_u64(v.property_id) + enc_u64(v.from_owner_id) + enc_u64(v.to_owner_id)
            + enc_u64(v.transaction_date) + enc_u64(v.created_at) + enc_u64(v.amount)
    }

    open spec fn rid(v: TransactionV) -> u64 {
        v.id
    }

    fn key(&self) -> (k: u64) {
        self.id
    }

    fn encode(&self) -> (r: Vec<u8>) {
        let mut out: Vec<u8> = Vec::new();
        put_u64(&mut out, self.id);
        put_u64(&mut out, self.property_id);
        put_u64(&mut out, self.from_owner_id);
        put_u64(&mut out, self.to_owner_id);
        put_u64(&mut out, self.transaction_date);
        put_u64(&mut out, self.created_at);
        put_u64(&mut out, self.amount);
        proof {
            assert(out@ =~= Self::enc(self@));
        }
        out
    }

    fn decode(bytes: &Vec<u8>, w: Ghost<TransactionV>) -> (r: Self) {
        let ghost v = w@;
        proof {
            lemma_transaction_enc_len(v);
            assert forall|x: u64| #[trigger] enc_u64(x).len() == 8 by {
                lemma_enc_u64_len(x);
            }
            assert(bytes@.subrange(0, bytes@.len() as int) =~= bytes@);
            assert(Self::enc(v) =~= enc_u64(v.id) + (enc_u64(v.property_id) + (enc_u64(
                v.from_owner_id,
            ) + (enc_u64(v.to_owner_id) + (enc_u64(v.transaction_date) + (enc_u64(v.created_at)
                + enc_u64(v.amount)))))));
            lemma_split_head(bytes@, 0, enc_u64(v.id), enc_u64(v.property_id) + (enc_u64(
                v.from_owner_id,
            ) + (enc_u64(v.to_owner_id) + (enc_u64(v.transaction_date) + (enc_u64(v.created_at)
                + enc_u64(v.amount))))));
            lemma_split_head(bytes@, 8, enc_u64(v.property_id), enc_u64(v.from_owner_id) + (enc_u64(
                v.to_owner_id,
            ) + (enc_u64(v.transaction_date) + (enc_u64(v.created_at) + enc_u64(v.amount)))));
            lemma_split_head(bytes@, 16, enc_u64(v.from_owner_id), enc_u64(v.to_owner_id) + (
            enc_u64(v.transaction_date) + (enc_u64(v.created_at) + enc_u64(v.amount))));
            lemma_split_head(bytes@, 24, enc_u64(v.to_owner_id), enc_u64(v.transaction_date) + (
            enc_u64(v.created_at) + enc_u64(v.amount)));
            lemma_split_head(bytes@, 32, enc_u64(v.transaction_date), enc_u64(v.created_at)
                + enc_u64(v.amount));
            lemma_split_head(bytes@, 40, enc_u64(v.created_at), enc_u64(v.amount));
            lemma_read_enc_u64(bytes@, 0, v.id);
            lemma_read_enc_u64(bytes@, 8, v.property_id);
            lemma_read_enc_u64(bytes@, 16, v.from_owner_id);
            lemma_read_enc_u64(bytes@, 24, v.to_owner_id);
            lemma_read_enc_u64(bytes@, 32, v.transaction_date);
            lemma_read_enc_u64(bytes@, 40, v.created_at);
            lemma_read_enc_u64(bytes@, 48, v.amount);
        }
        let id = take_u64(bytes, 0);
        let property_id = take_u64(bytes, 8);
        let from_owner_id = take_u64(bytes, 16);
        let to_owner_id = take_u64(bytes, 24);
        let transaction_date = take_u64(bytes, 32);
        let created_at = take_u64(bytes, 40);
        let amount = take_u64(bytes, 48);
        Transaction {
            id,
            property_id,
            from_owner_id,
            to_owner_id,
            transaction_date,
            created_at,
            amount,
        }
    }
}

pub proof fn lemma_transaction_enc_len(v: TransactionV)
    ensures
        Transaction::enc(v).len() == 56,
{
    assert forall|x: u64| #[trigger] enc_u64(x).len() == 8 by {
        lemma_enc_u64_len(x);
    }
}

/// A money transfer between two owners, not tied to a property.
#[derive(Debug)]
pub struct MoneyTransaction {
    pub id: u64,
    pub from_owner_id: u64,
    pub to_owner_id: u64,
    pub amount: u64,
    pub transaction_date: u64,
    pub created_at: u64,
}

pub ghost struct MoneyTransactionV {
    pub id: u64,
    pub from_owner_id: u64,
    pub to_owner_id: u64,
    pub amount: u64,
    pub transaction_date: u64,
    pub created_at: u64,
}

impl View for MoneyTransaction {
    type V = MoneyTransactionV;

    open spec fn view(&self) -> MoneyTransactionV {
        MoneyTransactionV {
            id: self.id,
            from_owner_id: self.from_owner_id,
            to_owner_id: self.to_owner_id,
            amount: self.amount,
            transaction_date: self.transaction_date,
            created_at: self.created_at,
        }
    }
}

impl Record for MoneyTransaction {
    open spec fn enc(v: MoneyTransactionV) -> Seq<u8> {
        enc_u64(v.id) + enc_u64(v.from_owner_id) + enc_u64(v.to_owner_id) + enc_u64(v.amount)
            + enc_u64(v.transaction_date) + enc_u64(v.created_at)
    }

    open spec fn rid(v: MoneyTransactionV) -> u64 {
        v.id
    }

    fn key(&self) -> (k: u64) {
        self.id
    }

    fn encode(&self) -> (r: Vec<u8>) {
        let mut out: Vec<u8> = Vec::new();
        put_u64(&mut out, self.id);
        put_u64(&mut out, self.from_owner_id);
        put_u64(&mut out, self.to_owner_id);
        put_u64(&mut out, self.amount);
        put_u64(&mut out, self.transaction_date);
        put_u64(&mut out, self.created_at);
        proof {
            assert(out@ =~= Self::enc(self@));
        }
        out
    }

    fn decode(bytes: &Vec<u8>, w: Ghost<MoneyTransactionV>) -> (r: Self) {
        let ghost v = w@;
        proof {
            assert forall|x: u64| #[trigger] enc_u64(x).len() == 8 by {
                lemma_enc_u64_len(x);
            }
            assert(bytes@.subrange(0, bytes@.len() as int) =~= bytes@);
            assert(Self::enc(v) =~= enc_u64(v.id) + (enc_u64(v.from_owner_id) + (enc_u64(
                v.to_owner_id,
            ) + (enc_u64(v.amount) + (enc_u64(v.transaction_date) + enc_u64(v.created_at))))));
            lemma_split_head(bytes@, 0, enc_u64(v.id), enc_u64(v.from_owner_id) + (enc_u64(
                v.to_owner_id,
            ) + (enc_u64(v.amount) + (enc_u64(v.transaction_date) + enc_u64(v.created_at)))));
            lemma_split_head(bytes@, 8, enc_u64(v.from_owner_id), enc_u64(v.to_owner_id) + (enc_u64(
                v.amount,
            ) + (enc_u64(v.transaction_date) + enc_u64(v.created_at))));
            lemma_split_head(bytes@, 16, enc_u64(v.to_owner_id), enc_u64(v.amount) + (enc_u64(
                v.transaction_date,
            ) + enc_u64(v.created_at)));
            lemma_split_head(bytes@, 24, enc_u64(v.amount), enc_u64(v.transaction_date) + enc_u64(
                v.created_at,
            ));
            lemma_split_head(bytes@, 32, enc_u64(v.transaction_date), enc_u64(v.created_at));
            lemma_read_enc_u64(bytes@, 0, v.id);
            lemma_read_enc_u64(bytes@, 8, v.from_owner_id);
            lemma_read_enc_u64(bytes@, 16, v.to_owner_id);
            lemma_read_enc_u64(bytes@, 24, v.amount);
            lemma_read_enc_u64(bytes@, 32, v.transaction_date);
            lemma_read_enc_u64(bytes@, 40, v.created_at);
        }
        let id = take_u64(bytes, 0);
        let from_owner_id = take_u64(bytes, 8);
        let to_owner_id = take_u64(bytes, 16);
        let amount = take_u64(bytes, 24);
        let transaction_date = take_u64(bytes, 32);
        let created_at = take_u64(bytes, 40);
        MoneyTransaction { id, from_owner_id, to_owner_id, amount, transaction_date, created_at }
    }
}

pub proof fn lemma_money_transaction_enc_len(v: MoneyTransactionV)
    ensures
        MoneyTransaction::enc(v).len() == 48,
{
    assert forall|x: u64| #[trigger] enc_u64(x).len() == 8 by {
        lemma_enc_u64_len(x);
    }
}


/// A registered alumni member, with a unique contact email.
#[derive(Debug)]
pub struct Alumni {
    pub id: u64,
    pub name: String,
    pub email: String,
    pub created_at: u64,
}

pub ghost struct AlumniV {
    pub id: u64,
    pub name: Seq<char>,
    pub email: Seq<char>,
    pub created_at: u64,
}

impl View for Alumni {
    type V = AlumniV;

    open spec fn view(&self) -> AlumniV {
        AlumniV { id: self.id, name: self.name@, email: self.email@, created_at: self.created_at }
    }
}

impl Record for Alumni {
    open spec fn enc(v: AlumniV) -> Seq<u8> {
        enc_u64(v.id) + enc_u64(v.created_at) + enc_text(v.name) + enc_text(v.email)
    }

    open spec fn rid(v: AlumniV) -> u64 {
        v.id
    }

    fn key(&self) -> (k: u64) {
        self.id
    }

    fn encode(&self) -> (r: Vec<u8>) {
        let mut out: Vec<u8> = Vec::new();
        put_u64(&mut out, self.id);
        put_u64(&mut out, self.created_at);
        put_text(&mut out, self.name.as_str());
        put_text(&mut out, self.email.as_str());
        proof {
            assert(out@ =~= Self::enc(self@));
        }
        out
    }

    fn decode(bytes: &Vec<u8>, w: Ghost<AlumniV>) -> (r: Self) {
        let ghost v = w@;
        let ghost p_name = enc_text(v.name);
        let ghost p_email = enc_text(v.email);
        proof {
            lemma_enc_u64_len(v.id);
            lemma_enc_u64_len(v.created_at);
            assert(bytes@.subrange(0, bytes@.len() as int) =~= bytes@);
            assert(Self::enc(v) =~= enc_u64(v.id) + (enc_u64(v.created_at) + (p_name + p_email)));
            lemma_split_head(bytes@, 0, enc_u64(v.id), enc_u64(v.created_at) + (p_name + p_email));
            lemma_split_head(bytes@, 8, enc_u64(v.created_at), p_name + p_email);
            lemma_split_head(bytes@, 16, p_name, p_email);
            lemma_read_enc_u64(bytes@, 0, v.id);
            lemma_read_enc_u64(bytes@, 8, v.created_at);
        }
        let id = take_u64(bytes, 0);
        let created_at = take_u64(bytes, 8);
        let (name, off) = take_text(bytes, 16, Ghost(v.name));
        let (email, _end) = take_text(bytes, off, Ghost(v.email));
        Alumni { id, name, email, created_at }
    }
}

/// How many bytes an alumni record with the given text fields occupies.
pub open spec fn alumni_enc_len(name: Seq<char>, email: Seq<char>) -> int {
    32 + encode_utf8(name).len() as int + encode_utf8(email).len() as int
}

pub proof fn lemma_alumni_enc_len(v: AlumniV)
    ensures
        Alumni::enc(v).len() == alumni_enc_len(v.name, v.email),
{
    lemma_enc_u64_len(v.id);
    lemma_enc_u64_len(v.created_at);
    lemma_enc_u64_len(encode_utf8(v.name).len() as u64);
    lemma_enc_u64_len(encode_utf8(v.email).len() as u64);
}

/// An association of alumni; its member list holds alumni identifiers.
#[derive(Debug)]
pub struct Association {
    pub id: u64,
    pub name: String,
    pub alumnis: Vec<u64>,
    pub created_at: u64,
}

pub ghost struct AssociationV {
    pub id: u64,
    pub name: Seq<char>,
    pub alumnis: Seq<u64>,
    pub created_at: u64,
}

impl View for Association {
    type V = AssociationV;

    open spec fn view(&self) -> AssociationV {
        AssociationV {
            id: self.id,
            name: self.name@,
            alumnis: self.alumnis@,
            created_at: self.created_at,
        }
    }
}

impl Record for Association {
    open spec fn enc(v: AssociationV) -> Seq<u8> {
        enc_u64(v.id) + enc_u64(v.created_at) + enc_text(v.name) + enc_u64_list(v.alumnis)
    }

    open spec fn rid(v: AssociationV) -> u64 {
        v.id
    }

    fn key(&self) -> (k: u64) {
        self.id
    }

    fn encode(&self) -> (r: Vec<u8>) {
        let mut out: Vec<u8> = Vec::new();
        put_u64(&mut out, self.id);
        put_u64(&mut out, self.created_at);
        put_text(&mut out, self.name.as_str());
        put_u64_list(&mut out, &self.alumnis);
        proof {
            assert(out@ =~= Self::enc(self@));
        }
        out
    }

    fn decode(bytes: &Vec<u8>, w: Ghost<AssociationV>) -> (r: Self) {
        let ghost v = w@;
        let ghost p_name = enc_text(v.name);
        let ghost p_members = enc_u64_list(v.alumnis);
        proof {
            lemma_enc_u64_len(v.id);
            lemma_enc_u64_len(v.created_at);
            assert(bytes@.subrange(0, bytes@.len() as int) =~= bytes@);
            assert(Self::enc(v) =~= enc_u64(v.id) + (enc_u64(v.created_at) + (p_name + p_members)));
            lemma_split_head(bytes@, 0, enc_u64(v.id), enc_u64(v.created_at) + (p_name + p_members));
            lemma_split_head(bytes@, 8, enc_u64(v.created_at), p_name + p_members);
            lemma_split_head(bytes@, 16, p_name, p_members);
            lemma_read_enc_u64(bytes@, 0, v.id);
            lemma_read_enc_u64(bytes@, 8, v.created_at);
        }
        let id = take_u64(bytes, 0);
        let created_at = take_u64(bytes, 8);
        let (name, off) = take_text(bytes, 16, Ghost(v.name));
        let (alumnis, _end) = take_u64_list(bytes, off, Ghost(v.alumnis));
        Association { id, name, alumnis, created_at }
    }
}

/// How many bytes an association record with the given fields occupies.
pub open spec fn association_enc_len(name: Seq<char>, member_count: int) -> int {
    32 + encode_utf8(name).len() as int + 8 * member_count
}

pub proof fn lemma_association_enc_len(v: AssociationV)
    ensures
        Association::enc(v).len() == association_enc_len(v.name, v.alumnis.len() as int),
{
    lemma_enc_u64_len(v.id);
    lemma_enc_u64_len(v.created_at);
    lemma_enc_u64_len(encode_utf8(v.name).len() as u64);
    lemma_enc_u64_len(v.alumnis.len() as u64);
    lemma_cat_u64s_len(v.alumnis);
    assert(enc_u64_list(v.alumnis).len() == 8 + 8 * v.alumnis.len());
    assert(Association::enc(v).len() == 8 + 8 + (8 + encode_utf8(v.name).len()) + (8 + 8
        * v.alumnis.len()));
}

/// An event held by an association, with a bounded attendee list. Attendees
/// are recorded by their unique alumni email.
#[derive(Debug)]
pub struct Event {
    pub id: u64,
    pub association_id: u64,
    pub title: String,
    pub capacity: u64,
    pub attendees: Vec<String>,
    pub created_at: u64,
}

pub ghost struct EventV {
    pub id: u64,
    pub association_id: u64,
    pub title: Seq<char>,
    pub capacity: u64,
    pub attendees: Seq<Seq<char>>,
    pub created_at: u64,
}

impl View for Event {
    type V = EventV;

    open spec fn view(&self) -> EventV {
        EventV {
            id: self.id,
            association_id: self.association_id,
            title: self.title@,
            capacity: self.capacity,
            attendees: self.attendees.deep_view(),
            created_at: self.created_at,
        }
    }
}

impl Record for Event {
    open spec fn enc(v: EventV) -> Seq<u8> {
        enc_u64(v.id) + enc_u64(v.association_id) + enc_u64(v.capacity) + enc_u64(v.created_at)
            + enc_text(v.title) + enc_text_list(v.attendees)
    }

    open spec fn rid(v: EventV) -> u64 {
        v.id
    }

    fn key(&self) -> (k: u64) {
        self.id
    }

    fn encode(&self) -> (r: Vec<u8>) {
        let mut out: Vec<u8> = Vec::new();
        put_u64(&mut out, self.id);
        put_u64(&mut out, self.association_id);
        put_u64(&mut out, self.capacity);
        put_u64(&mut out, self.created_at);
        put_text(&mut out, self.title.as_str());
        put_text_list(&mut out, &self.attendees);
        proof {
            assert(out@ =~= Self::enc(self@));
        }
        out
    }

    fn decode(bytes: &Vec<u8>, w: Ghost<EventV>) -> (r: Self) {
        let ghost v = w@;
        let ghost p_title = enc_text(v.title);
        let ghost p_att = enc_text_list(v.attendees);
        proof {
            lemma_enc_u64_len(v.id);
            lemma_enc_u64_len(v.association_id);
            lemma_enc_u64_len(v.capacity);
            lemma_enc_u64_len(v.created_at);
            assert(bytes@.subrange(0, bytes@.len() as int) =~= bytes@);
            assert(Self::enc(v) =~= enc_u64(v.id) + (enc_u64(v.association_id) + (enc_u64(
                v.capacity,
            ) + (enc_u64(v.created_at) + (p_title + p_att)))));
            lemma_split_head(bytes@, 0, enc_u64(v.id), enc_u64(v.association_id) + (enc_u64(
                v.capacity,
            ) + (enc_u64(v.created_at) + (p_title + p_att))));
            lemma_split_head(bytes@, 8, enc_u64(v.association_id), enc_u64(v.capacity) + (enc_u64(
                v.created_at,
            ) + (p_title + p_att)));
            lemma_split_head(bytes@, 16, enc_u64(v.capacity), enc_u64(v.created_at) + (p_title
                + p_att));
            lemma_split_head(bytes@, 24, enc_u64(v.created_at), p_title + p_att);
            lemma_split_head(bytes@, 32, p_title, p_att);
            lemma_read_enc_u64(bytes@, 0, v.id);
            lemma_read_enc_u64(bytes@, 8, v.association_id);
            lemma_read_enc_u64(bytes@, 16, v.capacity);
            lemma_read_enc_u64(bytes@, 24, v.created_at);
        }
        let id = take_u64(bytes, 0);
        let association_id = take_u64(bytes, 8);
        let capacity = take_u64(bytes, 16);
        let created_at = take_u64(bytes, 24);
        let (title, off) = take_text(bytes, 32, Ghost(v.title));
        let (attendees, _end) = take_text_list(bytes, off, Ghost(v.attendees));
        Event { id, association_id, title, capacity, attendees, created_at }
    }
}

/// How many bytes an event record with the given fields occupies.
pub open spec fn event_enc_len(title: Seq<char>, attendees: Seq<Seq<char>>) -> int {
    48 + encode_utf8(title).len() as int + cat_texts(attendees).len() as int
}

pub proof fn lemma_event_enc_len(v: EventV)
    ensures
        Event::enc(v).len() == event_enc_len(v.title, v.attendees),
{
    lemma_enc_u64_len(v.id);
    lemma_enc_u64_len(v.association_id);
    lemma_enc_u64_len(v.capacity);
    lemma_enc_u64_len(v.created_at);
    lemma_enc_u64_len(encode_utf8(v.title).len() as u64);
    lemma_enc_u64_len(v.attendees.len() as u64);
}

/// A message an alumni sends to an association.
#[derive(Debug)]
pub struct MessageToAssociation {
    pub id: u64,
    pub association_id: u64,
    pub alumni_id: u64,
    pub content: String,
    pub created_at: u64,
}

pub ghost struct MessageToAssociationV {
    pub id: u64,
    pub association_id: u64,
    pub alumni_id: u64,
    pub content: Seq<char>,
    pub created_at: u64,
}

impl View for MessageToAssociation {
    type V = MessageToAssociationV;

    open spec fn view(&self) -> MessageToAssociationV {
        MessageToAssociationV {
            id: self.id,
            association_id: self.association_id,
            alumni_id: self.alumni_id,
            content: self.content@,
            created_at: self.created_at,
        }
    }
}

impl Record for MessageToAssociation {
    open spec fn enc(v: MessageToAssociationV) -> Seq<u8> {
        enc_u64(v.id) + enc_u64(v.association_id) + enc_u64(v.alumni_id) + enc_u64(v.created_at)
            + enc_text(v.content)
    }

    open spec fn rid(v: MessageToAssociationV) -> u64 {
        v.id
    }

    fn key(&self) -> (k: u64) {
        self.id
    }

    fn encode(&self) -> (r: Vec<u8>) {
        let mut out: Vec<u8> = Vec::new();
        put_u64(&mut out, self.id);
        put_u64(&mut out, self.association_id);
        put_u64(&mut out, self.alumni_id);
        put_u64(&mut out, self.created_at);
        put_text(&mut out, self.content.as_str());
        proof {
            assert(out@ =~= Self::enc(self@));
        }
        out
    }

    fn decode(bytes: &Vec<u8>, w: Ghost<MessageToAssociationV>) -> (r: Self) {
        let ghost v = w@;
        let ghost p_content = enc_text(v.content);
        proof {
            lemma_enc_u64_len(v.id);
            lemma_enc_u64_len(v.association_id);
            lemma_enc_u64_len(v.alumni_id);
            lemma_enc_u64_len(v.created_at);
            assert(bytes@.subrange(0, bytes@.len() as int) =~= bytes@);
            assert(Self::enc(v) =~= enc_u64(v.id) + (enc_u64(v.association_id) + (enc_u64(
                v.alumni_id,
            ) + (enc_u64(v.created_at) + p_content))));
            lemma_split_head(bytes@, 0, enc_u64(v.id), enc_u64(v.association_id) + (enc_u64(
                v.alumni_id,
            ) + (enc_u64(v.created_at) + p_content)));
            lemma_split_head(bytes@, 8, enc_u64(v.association_id), enc_u64(v.alumni_id) + (enc_u64(
                v.created_at,
            ) + p_content));
            lemma_split_head(bytes@, 16, enc_u64(v.alumni_id), enc_u64(v.created_at) + p_content);
            lemma_split_head(bytes@, 24, enc_u64(v.created_at), p_content);
            lemma_read_enc_u64(bytes@, 0, v.id);
            lemma_read_enc_u64(bytes@, 8, v.association_id);
            lemma_read_enc_u64(bytes@, 16, v.alumni_id);
            lemma_read_enc_u64(bytes@, 24, v.created_at);
        }
        let id = take_u64(bytes, 0);
        let association_id = take_u64(bytes, 8);
        let alumni_id = take_u64(bytes, 16);
        let created_at = take_u64(bytes, 24);
        let (content, _end) = take_text(bytes, 32, Ghost(v.content));
        MessageToAssociation { id, association_id, alumni_id, content, created_at }
    }
}

/// How many bytes a message record with the given text field occupies.
pub open spec fn message_enc_len(content: Seq<char>) -> int {
    40 + encode_utf8(content).len() as int
}

pub proof fn lemma_message_enc_len(v: MessageToAssociationV)
    ensures
        MessageToAssociation::enc(v).len() == message_enc_len(v.content),
{
    lemma_enc_u64_len(v.id);
    lemma_enc_u64_len(v.association_id);
    lemma_enc_u64_len(v.alumni_id);
    lemma_enc_u64_len(v.created_at);
    lemma_enc_u64_len(encode_utf8(v.content).len() as u64);
}

/// The lifecycle of a mentorship request: created pending, and at most once
/// moved to approved.
#[derive(Clone, Copy, PartialEq, Eq, Structural, Debug)]
pub enum RequestStatus {
    Pending,
    Approved,
}

/// The code under which a request status is stored.
pub open spec fn status_code(s: RequestStatus) -> u64 {
    match s {
        RequestStatus::Pending => 0,
        RequestStatus::Approved => 1,
    }
}

fn status_to_code(s: RequestStatus) -> (c: u64)
    ensures
        c == status_code(s),
{
    match s {
        RequestStatus::Pending => 0,
        RequestStatus::Approved => 1,
    }
}

/// A mentorship request one alumni addresses to another.
#[derive(Debug)]
pub struct MentorshipRequest {
    pub id: u64,
    pub alumni_id: u64,
    pub mentor_id: u64,
    pub topic: String,
    pub status: RequestStatus,
    pub created_at: u64,
}

pub ghost struct MentorshipRequestV {
    pub id: u64,
    pub alumni_id: u64,
    pub mentor_id: u64,
    pub topic: Seq<char>,
    pub status: RequestStatus,
    pub created_at: u64,
}

impl View for MentorshipRequest {
    type V = MentorshipRequestV;

    open spec fn view(&self) -> MentorshipRequestV {
        MentorshipRequestV {
            id: self.id,
            alumni_id: self.alumni_id,
            mentor_id: self.mentor_id,
            topic: self.topic@,
            status: self.status,
            created_at: self.created_at,
        }
    }
}

impl Record for MentorshipRequest {
    open spec fn enc(v: MentorshipRequestV) -> Seq<u8> {
        enc_u64(v.id) + enc_u64(v.alumni_id) + enc_u64(v.mentor_id) + enc_u64(status_code(v.status))
            + enc_u64(v.created_at) + enc_text(v.topic)
    }

    open spec fn rid(v: MentorshipRequestV) -> u64 {
        v.id
    }

    fn key(&self) -> (k: u64) {
        self.id
    }

    fn encode(&self) -> (r: Vec<u8>) {
        let mut out: Vec<u8> = Vec::new();
        put_u64(&mut out, self.id);
        put_u64(&mut out, self.alumni_id);
        put_u64(&mut out, self.mentor_id);
        put_u64(&mut out, status_to_code(self.status));
        put_u64(&mut out, self.created_at);
        put_text(&mut out, self.topic.as_str());
        proof {
            assert(out@ =~= Self::enc(self@));
        }
        out
    }

    fn decode(bytes: &Vec<u8>, w: Ghost<MentorshipRequestV>) -> (r: Self) {
        let ghost v = w@;
        let ghost p_topic = enc_text(v.topic);
        proof {
            lemma_enc_u64_len(v.id);
            lemma_enc_u64_len(v.alumni_id);
            lemma_enc_u64_len(v.mentor_id);
            lemma_enc_u64_len(status_code(v.status));
            lemma_enc_u64_len(v.created_at);
            assert(bytes@.subrange(0, bytes@.len() as int) =~= bytes@);
            assert(Self::enc(v) =~= enc_u64(v.id) + (enc_u64(v.alumni_id) + (enc_u64(v.mentor_id)
                + (enc_u64(status_code(v.status)) + (enc_u64(v.created_at) + p_topic)))));
            lemma_split_head(bytes@, 0, enc_u64(v.id), enc_u64(v.alumni_id) + (enc_u64(v.mentor_id)
                + (enc_u64(status_code(v.status)) + (enc_u64(v.created_at) + p_topic))));
            lemma_split_head(bytes@, 8, enc_u64(v.alumni_id), enc_u64(v.mentor_id) + (enc_u64(
                status_code(v.status),
            ) + (enc_u64(v.created_at) + p_topic)));
            lemma_split_head(bytes@, 16, enc_u64(v.mentor_id), enc_u64(status_code(v.status)) + (
            enc_u64(v.created_at) + p_topic));
            lemma_split_head(bytes@, 24, enc_u64(status_code(v.status)), enc_u64(v.created_at)
                + p_topic);
            lemma_split_head(bytes@, 32, enc_u64(v.created_at), p_topic);
            lemma_read_enc_u64(bytes@, 0, v.id);
            lemma_read_enc_u64(bytes@, 8, v.alumni_id);
            lemma_read_enc_u64(bytes@, 16, v.mentor_id);
            lemma_read_enc_u64(bytes@, 24, status_code(v.status));
            lemma_read_enc_u64(bytes@, 32, v.created_at);
        }
        let id = take_u64(bytes, 0);
        let alumni_id = take_u64(bytes, 8);
        let mentor_id = take_u64(bytes, 16);
        let code = take_u64(bytes, 24);
        let created_at = take_u64(bytes, 32);
        let (topic, _end) = take_text(bytes, 40, Ghost(v.topic));
        let status = if code == 0 {
            RequestStatus::Pending
        } else {
            RequestStatus::Approved
        };
        MentorshipRequest { id, alumni_id, mentor_id, topic, status, created_at }
    }
}

/// How many bytes a mentorship record with the given text field occupies.
pub open spec fn mentorship_enc_len(topic: Seq<char>) -> int {
    48 + encode_utf8(topic).len() as int
}

pub proof fn lemma_mentorship_enc_len(v: MentorshipRequestV)
    ensures
        MentorshipRequest::enc(v).len() == mentorship_enc_len(v.topic),
{
    lemma_enc_u64_len(v.id);
    lemma_enc_u64_len(v.alumni_id);
    lemma_enc_u64_len(v.mentor_id);
    lemma_enc_u64_len(status_code(v.status));
    lemma_enc_u64_len(v.created_at);
    lemma_enc_u64_len(encode_utf8(v.topic).len() as u64);
}

} // verus!

//! The two record schemas of the store, their mathematical views, and the
//! error kinds that the store's operations report.

use vstd::prelude::*;

verus! {

/// Outcome kinds of store operations: a lookup of a missing id, a caller
/// payload that fails validation, and a violated schema contract (such as a
/// record that exceeds its encoded size bound).
#[derive(Clone, Copy, Debug, PartialEq, Eq, Structural)]
pub enum Error {
    NotFound,
    InvalidInput,
    Fatal,
}

/// A gift record. `recipient_id` references a recipient record's primary
/// key; the reference is advisory and never enforced by the store.
#[derive(Clone, Debug)]
pub struct Gift {
    pub id: u64,
    pub name: String,
    pub recipient_id: u64,
    pub description: String,
    pub status: String,
    pub created_at: u64,
    pub updated_at: Option<u64>,
}

/// A recipient record.
#[derive(Clone, Debug)]
pub struct Recipient {
    pub id: u64,
    pub name: String,
    pub relationship: String,
    pub created_at: u64,
    pub updated_at: Option<u64>,
}

/// Caller-supplied fields for creating or updating a gift.
#[derive(Clone, Debug)]
pub struct GiftPayload {
    pub name: String,
    pub recipient_id: u64,
    pub description: String,
    pub status: String,
}

/// Caller-supplied fields for creating or updating a recipient.
#[derive(Clone, Debug)]
pub struct RecipientPayload {
    pub name: String,
    pub relationship: String,
}

/// Mathematical value of a gift record.
pub ghost struct GiftView {
    pub id: u64,
    pub name: Seq<char>,
    pub recipient_id: u64,
    pub description: Seq<char>,
    pub status: Seq<char>,
    pub created_at: u64,
    pub updated_at: Option<u64>,
}

/// Mathematical value of a recipient record.
pub ghost struct RecipientView {
    pub id: u64,
    pub name: Seq<char>,
    pub relationship: Seq<char>,
    pub created_at: u64,
    pub updated_at: Option<u64>,
}

/// Mathematical value of a gift payload.
pub ghost struct GiftPayloadView {
    pub name: Seq<char>,
    pub recipient_id: u64,
    pub description: Seq<char>,
    pub status: Seq<char>,
}

/// Mathematical value of a recipient payload.
pub ghost struct RecipientPayloadView {
    pub name: Seq<char>,
    pub relationship: Seq<char>,
}

impl View for GiftPayload {
    type V = GiftPayloadView;

    open spec fn view(&self) -> GiftPayloadView {
        GiftPayloadView {
            name: self.name@,
            recipient_id: self.recipient_id,
            description: self.description@,
            status: self.status@,
        }
    }
}

impl View for RecipientPayload {
    type V = RecipientPayloadView;

    open spec fn view(&self) -> RecipientPayloadView {
        RecipientPayloadView { name: self.name@, relationship: self.relationship@ }
    }
}

impl View for Gift {
    type V = GiftView;

    open spec fn view(&self) -> GiftView {
        GiftView {
            id: self.id,
            name: self.name@,
            recipient_id: self.recipient_id,
            description: self.description@,
            status: self.status@,
            created_at: self.created_at,
            updated_at: self.updated_at,
        }
    }
}

impl View for Recipient {
    type V = RecipientView;

    open spec fn view(&self) -> RecipientView {
        RecipientView {
            id: self.id,
            name: self.name@,
            relationship: self.relationship@,
            created_at: self.created_at,
            updated_at: self.updated_at,
        }
    }
}

/// The record life cycle at the level of a table's contents, for any
/// record schema: a created record is read back exactly as inserted; an
/// overwrite of the same id replaces exactly that entry, leaving a single
/// entry for the id; a deleted id reads as absent; and no operation on one
/// id disturbs any other entry.
pub proof fn lemma_crud_lifecycle<V>(m: Map<u64, V>, id: u64, created: V, updated: V)
    requires
        !m.contains_key(id),
    ensures
        m.insert(id, created)[id] == created,
        m.insert(id, created).insert(id, updated)[id] == updated,
        m.insert(id, created).insert(id, updated).dom() == m.insert(id, created).dom(),
        !m.insert(id, created).insert(id, updated).remove(id).contains_key(id),
        forall|k: u64|
            k != id ==> ((#[trigger] m.insert(id, created).contains_key(k)) <==> m.contains_key(
                k,
            )),
        forall|k: u64|
            #[trigger] m.contains_key(k) && k != id ==> m.insert(id, created).insert(
                id,
                updated,
            ).remove(id)[k] == m[k],
{
    assert(m.insert(id, created).insert(id, updated).dom() =~= m.insert(id, created).dom());
}

} // verus!

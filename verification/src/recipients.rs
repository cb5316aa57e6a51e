//! The recipient table: one durable counter, one ordered durable map of
//! encoded recipient records, the CRUD operations over them, and the
//! most-recently-created query.

use crate::codec::decode_recipient;
use crate::codec::enc_recipient;
use crate::codec::encode_recipient;
use crate::codec::lemma_dec_recipient_exact;
use crate::codec::lemma_recipient_round_trip;
use crate::codec::MAX_ENCODED_SIZE;
use crate::codec::recipient_fits;
use crate::codec::recipient_payload_fits;
use crate::counter::Counter;
use crate::records::Error;
use crate::records::Recipient;
use crate::records::RecipientPayload;
use crate::records::RecipientPayloadView;
use crate::records::RecipientView;
use crate::storage::byte_map_get;
use crate::storage::byte_map_init;
use crate::storage::byte_map_insert;
use crate::storage::byte_map_iterate;
use crate::storage::byte_map_remove;
use crate::storage::map_entries;
use crate::storage::region_is_empty;
use crate::storage::ByteMap;
use crate::storage::Region;
use vstd::prelude::*;
use vstd::string::StrSliceExecFns;

verus! {

/// Caller-level validation of a recipient payload: every text field is
/// filled.
pub open spec fn recipient_payload_valid(p: RecipientPayloadView) -> bool {
    p.name.len() > 0 && p.relationship.len() > 0
}

/// One logical table of recipient records.
pub struct RecipientTable {
    counter: Counter,
    map: ByteMap,
    model: Ghost<Map<u64, RecipientView>>,
}

impl RecipientTable {
    /// The records the table holds, keyed by their identifiers.
    pub closed spec fn view(self) -> Map<u64, RecipientView> {
        self.model@
    }

    /// The last identifier the table handed out.
    pub closed spec fn counter_value(self) -> u64 {
        self.counter.value()
    }

    /// The table's invariant, as for the gift table.
    pub closed spec fn wf(self) -> bool {
        &&& map_entries(self.map).dom().finite()
        &&& (forall|k: u64|
            self.model@.contains_key(k) <==> #[trigger] map_entries(self.map).contains_key(k))
        &&& (forall|k: u64|
            #[trigger] self.model@.contains_key(k) ==> map_entries(self.map)[k] == enc_recipient(
                self.model@[k],
            ) && recipient_fits(self.model@[k]) && self.model@[k].id == k && 1 <= k
                <= self.counter.value())
    }
}

/// Builds the recipient table over two freshly allocated regions.
pub fn init_recipient_table(counter_region: Region, map_region: Region) -> (t: RecipientTable)
    requires
        region_is_empty(counter_region),
        region_is_empty(map_region),
    ensures
        t.wf(),
        t@ == Map::<u64, RecipientView>::empty(),
        t.counter_value() == 0,
{
    let counter = Counter::init(counter_region);
    let map = byte_map_init(map_region);
    RecipientTable { counter, map, model: Ghost(Map::empty()) }
}

/// Opens the recipient table over regions that may already hold a
/// persisted table: loads the counter, reads every stored entry back, and
/// refuses a pair of regions whose contents are not this table's own
/// well-formed encodings under in-range identifiers.  Over empty regions
/// it yields an empty table.
pub fn open_recipient_table(counter_region: Region, map_region: Region) -> (r: Result<
    RecipientTable,
    Error,
>)
    ensures
        r matches Ok(t) ==> t.wf(),
        r matches Err(e) ==> e == Error::Fatal,
        region_is_empty(counter_region) && region_is_empty(map_region) ==> (r matches Ok(t)
            && t@ == Map::<u64, RecipientView>::empty() && t.counter_value() == 0),
{
    let counter = Counter::init(counter_region);
    let limit = counter.current();
    let map = byte_map_init(map_region);
    let pairs = byte_map_iterate(&map);
    let ghost mut model = Map::<u64, RecipientView>::empty();
    let mut idx: usize = 0;
    while idx < pairs.len()
        invariant
            idx <= pairs@.len(),
            limit == counter.value(),
            map_entries(map).dom().finite(),
            region_is_empty(map_region) ==> pairs@.len() == 0,
            region_is_empty(counter_region) ==> limit == 0,
            forall|i: int|
                0 <= i < pairs@.len() ==> map_entries(map).contains_key((#[trigger] pairs@[i]).0)
                    && pairs@[i].1@ == map_entries(map)[pairs@[i].0],
            forall|k: u64|
                #[trigger] map_entries(map).contains_key(k) ==> exists|i: int|
                    0 <= i < pairs@.len() && (#[trigger] pairs@[i]).0 == k,
            forall|k: u64|
                #[trigger] model.contains_key(k) ==> exists|i: int|
                    0 <= i < idx && (#[trigger] pairs@[i]).0 == k,
            forall|i: int| 0 <= i < idx ==> model.contains_key((#[trigger] pairs@[i]).0),
            forall|k: u64|
                #[trigger] model.contains_key(k) ==> map_entries(map).contains_key(k)
                    && map_entries(map)[k] == enc_recipient(model[k]) && recipient_fits(model[k])
                    && model[k].id == k && 1 <= k <= limit,
        decreases pairs@.len() - idx,
    {
        let key = pairs[idx].0;
        if pairs[idx].1.len() > MAX_ENCODED_SIZE {
            return Err(Error::Fatal);
        }
        let rec = match decode_recipient(&pairs[idx].1) {
            Some(rec) => rec,
            None => {
                return Err(Error::Fatal);
            },
        };
        if rec.id != key || key == 0 || key > limit {
            return Err(Error::Fatal);
        }
        proof {
            lemma_dec_recipient_exact(pairs@[idx as int].1@, rec@);
            model = model.insert(key, rec@);
        }
        idx = idx + 1;
    }
    let t = RecipientTable { counter, map, model: Ghost(model) };
    proof {
        assert forall|k: u64|
            t.model@.contains_key(k) <==> #[trigger] map_entries(t.map).contains_key(k) by {
            if map_entries(t.map).contains_key(k) {
                let i = choose|i: int| 0 <= i < pairs@.len() && (#[trigger] pairs@[i]).0 == k;
                assert(model.contains_key(pairs@[i].0));
            }
        }
        if region_is_empty(map_region) {
            assert(model =~= Map::<u64, RecipientView>::empty());
        }
    }
    Ok(t)
}

/// Reads the last identifier the table handed out.
pub fn recipient_table_counter(t: &RecipientTable) -> (v: u64)
    ensures
        v == t.counter_value(),
{
    t.counter.current()
}

/// Copies a recipient field by field; the copy denotes the same record.
pub fn clone_recipient(r: &Recipient) -> (c: Recipient)
    ensures
        c@ == r@,
{
    Recipient {
        id: r.id,
        name: r.name.clone(),
        relationship: r.relationship.clone(),
        created_at: r.created_at,
        updated_at: r.updated_at,
    }
}

/// Looks a recipient up by id.
pub fn _get_recipient(t: &RecipientTable, id: &u64) -> (r: Option<Recipient>)
    requires
        t.wf(),
    ensures
        match r {
            Some(rec) => t@.contains_key(*id) && rec@ == t@[*id],
            None => !t@.contains_key(*id),
        },
{
    match byte_map_get(&t.map, *id) {
        Some(bytes) => {
            proof {
                lemma_recipient_round_trip(t@[*id]);
            }
            match decode_recipient(&bytes) {
                Some(rec) => Some(rec),
                None => {
                    proof {
                        assert(false);
                    }
                    None
                },
            }
        },
        None => None,
    }
}

/// Looks a recipient up by id, reporting a missing id as an error.
pub fn get_recipient(t: &RecipientTable, id: u64) -> (r: Result<Recipient, Error>)
    requires
        t.wf(),
    ensures
        match r {
            Ok(rec) => t@.contains_key(id) && rec@ == t@[id],
            Err(e) => !t@.contains_key(id) && e == Error::NotFound,
        },
{
    match _get_recipient(t, &id) {
        Some(rec) => Ok(rec),
        None => Err(Error::NotFound),
    }
}

/// Encodes the recipient and writes it into the table's map under its own
/// id, creating or overwriting the entry.
pub fn do_insert_recipient(t: &mut RecipientTable, recipient: &Recipient)
    requires
        old(t).wf(),
        recipient_fits(recipient@),
        1 <= recipient@.id <= old(t).counter_value(),
    ensures
        final(t).wf(),
        final(t)@ == old(t)@.insert(recipient@.id, recipient@),
        final(t).counter_value() == old(t).counter_value(),
{
    let bytes = match encode_recipient(recipient) {
        Ok(b) => b,
        Err(_) => {
            proof {
                assert(false);
            }
            return ;
        },
    };
    let _ = byte_map_insert(&mut t.map, recipient.id, bytes);
    proof {
        t.model@ = t.model@.insert(recipient.id, recipient@);
    }
}

/// Validates the payload, draws the next identifier, stamps the creation
/// timestamp, stores the new record and returns it; an unfilled payload is
/// rejected with no change to the table.
pub fn add_recipient(t: &mut RecipientTable, payload: RecipientPayload, now: u64) -> (r: Option<
    Recipient,
>)
    requires
        old(t).wf(),
        old(t).counter_value() < u64::MAX,
        recipient_payload_fits(payload@),
    ensures
        final(t).wf(),
        !recipient_payload_valid(payload@) ==> r is None && *final(t) == *old(t),
        recipient_payload_valid(payload@) ==> (r matches Some(rec) && ({
            &&& rec@.id == old(t).counter_value() + 1
            &&& !old(t)@.contains_key(rec@.id)
            &&& rec@.name == payload@.name
            &&& rec@.relationship == payload@.relationship
            &&& rec@.created_at == now
            &&& rec@.updated_at is None
            &&& final(t)@ == old(t)@.insert(rec@.id, rec@)
            &&& final(t).counter_value() == old(t).counter_value() + 1
        })),
{
    if payload.name.as_str().is_empty() || payload.relationship.as_str().is_empty() {
        return None;
    }
    let id = t.counter.next_id();
    let recipient = Recipient {
        id,
        name: payload.name,
        relationship: payload.relationship,
        created_at: now,
        updated_at: None,
    };
    do_insert_recipient(t, &recipient);
    Some(recipient)
}

/// Overwrites the mutable fields of an existing recipient and stamps the
/// update timestamp; an unfilled payload or a missing id is rejected with
/// no change to the table.
pub fn update_recipient(t: &mut RecipientTable, id: u64, payload: RecipientPayload, now: u64) -> (r:
    Result<Recipient, Error>)
    requires
        old(t).wf(),
        recipient_payload_fits(payload@),
    ensures
        final(t).wf(),
        final(t).counter_value() == old(t).counter_value(),
        !recipient_payload_valid(payload@) ==> (r matches Err(e) && e == Error::InvalidInput
            && *final(t) == *old(t)),
        recipient_payload_valid(payload@) && !old(t)@.contains_key(id) ==> (r matches Err(e) && e
            == Error::NotFound && *final(t) == *old(t)),
        recipient_payload_valid(payload@) && old(t)@.contains_key(id) ==> (r matches Ok(rec) && ({
            &&& rec@.id == id
            &&& rec@.name == payload@.name
            &&& rec@.relationship == payload@.relationship
            &&& rec@.created_at == old(t)@[id].created_at
            &&& rec@.updated_at == Some(now)
            &&& final(t)@ == old(t)@.insert(id, rec@)
        })),
{
    if payload.name.as_str().is_empty() || payload.relationship.as_str().is_empty() {
        return Err(Error::InvalidInput);
    }
    match _get_recipient(t, &id) {
        Some(prior) => {
            let recipient = Recipient {
                id,
                name: payload.name,
                relationship: payload.relationship,
                created_at: prior.created_at,
                updated_at: Some(now),
            };
            do_insert_recipient(t, &recipient);
            Ok(recipient)
        },
        None => Err(Error::NotFound),
    }
}

/// Removes a recipient by id and returns the removed record; a missing id
/// is rejected.  No gift referencing the recipient is touched: the
/// reference is advisory and deletion does not cascade.
pub fn delete_recipient(t: &mut RecipientTable, id: u64) -> (r: Result<Recipient, Error>)
    requires
        old(t).wf(),
    ensures
        final(t).wf(),
        final(t).counter_value() == old(t).counter_value(),
        match r {
            Ok(rec) => old(t)@.contains_key(id) && rec@ == old(t)@[id] && final(t)@
                == old(t)@.remove(id),
            Err(e) => !old(t)@.contains_key(id) && e == Error::NotFound && final(t)@ == old(t)@,
        },
{
    match byte_map_remove(&mut t.map, id) {
        Some(bytes) => {
            proof {
                lemma_recipient_round_trip(old(t)@[id]);
            }
            match decode_recipient(&bytes) {
                Some(rec) => {
                    proof {
                        t.model@ = t.model@.remove(id);
                    }
                    Ok(rec)
                },
                None => {
                    proof {
                        assert(false);
                    }
                    Err(Error::NotFound)
                },
            }
        },
        None => {
            proof {
                assert(map_entries(t.map) =~= map_entries(old(t).map));
            }
            Err(Error::NotFound)
        },
    }
}

/// Decodes every entry of the table in ascending id order.
fn scan_recipients(t: &RecipientTable) -> (v: Vec<Recipient>)
    requires
        t.wf(),
    ensures
        v@.len() == t@.len(),
        forall|i: int|
            0 <= i < v@.len() ==> t@.contains_key((#[trigger] v@[i])@.id) && v@[i]@ == t@[v@[i]@.id],
        forall|i: int, j: int|
            #![trigger v@[i], v@[j]]
            0 <= i < j < v@.len() ==> v@[i]@.id < v@[j]@.id,
        forall|k: u64|
            #[trigger] t@.contains_key(k) ==> exists|i: int|
                0 <= i < v@.len() && (#[trigger] v@[i])@.id == k,
{
    let pairs = byte_map_iterate(&t.map);
    proof {
        assert(t@.dom() =~= map_entries(t.map).dom());
    }
    let mut v: Vec<Recipient> = Vec::new();
    let mut idx: usize = 0;
    while idx < pairs.len()
        invariant
            t.wf(),
            idx <= pairs@.len(),
            v@.len() == idx,
            pairs@.len() == map_entries(t.map).len(),
            forall|i: int|
                0 <= i < pairs@.len() ==> map_entries(t.map).contains_key((#[trigger] pairs@[i]).0)
                    && pairs@[i].1@ == map_entries(t.map)[pairs@[i].0],
            forall|i: int, j: int|
                #![trigger pairs@[i], pairs@[j]]
                0 <= i < j < pairs@.len() ==> pairs@[i].0 < pairs@[j].0,
            forall|k: u64|
                #[trigger] map_entries(t.map).contains_key(k) ==> exists|i: int|
                    0 <= i < pairs@.len() && (#[trigger] pairs@[i]).0 == k,
            forall|i: int|
                0 <= i < idx ==> (#[trigger] v@[i])@.id == pairs@[i].0 && t@.contains_key(
                    pairs@[i].0,
                ) && v@[i]@ == t@[pairs@[i].0],
        decreases pairs@.len() - idx,
    {
        let key = pairs[idx].0;
        proof {
            lemma_recipient_round_trip(t@[key]);
        }
        match decode_recipient(&pairs[idx].1) {
            Some(rec) => {
                v.push(rec);
            },
            None => {
                proof {
                    assert(false);
                }
            },
        }
        idx = idx + 1;
    }
    proof {
        assert forall|k: u64| #[trigger] t@.contains_key(k) implies exists|i: int|
            0 <= i < v@.len() && (#[trigger] v@[i])@.id == k by {
            let i = choose|i: int| 0 <= i < pairs@.len() && (#[trigger] pairs@[i]).0 == k;
            assert(v@[i]@.id == k);
        }
    }
    v
}

/// Returns every recipient in ascending id order; an empty table is
/// reported as an error.
pub fn get_all_recipients(t: &RecipientTable) -> (r: Result<Vec<Recipient>, Error>)
    requires
        t.wf(),
    ensures
        t@.len() == 0 ==> (r matches Err(e) && e == Error::NotFound),
        t@.len() != 0 ==> (r matches Ok(v) && ({
            &&& v@.len() == t@.len()
            &&& (forall|i: int|
                0 <= i < v@.len() ==> t@.contains_key((#[trigger] v@[i])@.id) && v@[i]@
                    == t@[v@[i]@.id])
            &&& (forall|i: int, j: int|
                #![trigger v@[i], v@[j]]
                0 <= i < j < v@.len() ==> v@[i]@.id < v@[j]@.id)
            &&& (forall|k: u64|
                #[trigger] t@.contains_key(k) ==> exists|i: int|
                    0 <= i < v@.len() && (#[trigger] v@[i])@.id == k)
        })),
{
    let recipients = scan_recipients(t);
    if recipients.len() != 0 {
        Ok(recipients)
    } else {
        Err(Error::NotFound)
    }
}

/// The recency order for the most-recent query: later creation first, and
/// among records created at the same instant, the lower id first (the
/// order a stable descending sort of an ascending-id scan produces).
pub open spec fn recent_before(a: RecipientView, b: RecipientView) -> bool {
    a.created_at > b.created_at || (a.created_at == b.created_at && a.id < b.id)
}

pub open spec fn sorted_recent(s: Seq<Recipient>) -> bool {
    forall|i: int, j: int| #![trigger s[i], s[j]] 0 <= i < j < s.len() ==> recent_before(s[i]@, s[j]@)
}

/// Inserts the record at its place in a sequence sorted by recency.
fn insert_recent(out: &mut Vec<Recipient>, rec: Recipient)
    requires
        sorted_recent(old(out)@),
        forall|i: int| 0 <= i < old(out)@.len() ==> (#[trigger] old(out)@[i])@.id != rec@.id,
    ensures
        final(out)@.len() == old(out)@.len() + 1,
        sorted_recent(final(out)@),
        forall|j: int|
            0 <= j < final(out)@.len() ==> final(out)@[j] == rec || old(out)@.contains(
                #[trigger] final(out)@[j],
            ),
        forall|j: int| 0 <= j < old(out)@.len() ==> final(out)@.contains(#[trigger] old(out)@[j]),
        final(out)@.contains(rec),
{
    let mut pos: usize = 0;
    while pos < out.len() && (out[pos].created_at > rec.created_at || (out[pos].created_at
        == rec.created_at && out[pos].id < rec.id))
        invariant
            pos <= out@.len(),
            out@ == old(out)@,
            forall|i: int| 0 <= i < pos ==> recent_before((#[trigger] out@[i])@, rec@),
        decreases out@.len() - pos,
    {
        pos = pos + 1;
    }
    proof {
        if (pos as int) < out@.len() {
            assert(recent_before(rec@, out@[pos as int]@));
        }
    }
    let ghost prior = out@;
    out.insert(pos, rec);
    proof {
        prior.insert_ensures(pos as int, rec);
        assert forall|i: int, j: int|
            #![trigger out@[i], out@[j]]
            0 <= i < j < out@.len() implies recent_before(out@[i]@, out@[j]@) by {
            if j < pos {
                assert(out@[i] == prior[i] && out@[j] == prior[j]);
            } else if i > pos {
                assert(out@[i] == prior[i - 1] && out@[j] == prior[j - 1]);
            } else if i < pos && j == pos {
                assert(out@[i] == prior[i]);
            } else if i == pos && j > pos {
                assert(out@[j] == prior[j - 1]);
                if pos < prior.len() {
                    assert(recent_before(rec@, prior[pos as int]@));
                }
            } else if i < pos && j > pos {
                assert(out@[i] == prior[i] && out@[j] == prior[j - 1]);
                if pos < prior.len() {
                    assert(recent_before(rec@, prior[pos as int]@));
                }
            }
        }
        assert forall|j: int| 0 <= j < prior.len() implies out@.contains(#[trigger] prior[j]) by {
            if j < pos {
                assert(out@[j] == prior[j]);
            } else {
                assert(out@[j + 1] == prior[j]);
            }
        }
        assert(out@[pos as int] == rec);
    }
}

/// Whether some element of the sequence carries the given id.
pub open spec fn holds_id(s: Seq<Recipient>, k: u64) -> bool {
    exists|i: int| 0 <= i < s.len() && (#[trigger] s[i])@.id == k
}

/// Returns the most recently created recipients, at most five, most recent
/// first; records created at the same instant keep ascending id order.  An
/// empty table yields the empty sequence: this query always succeeds.
#[verifier::rlimit(100)]
pub fn get_recent_recipients(t: &RecipientTable) -> (r: Result<Vec<Recipient>, Error>)
    requires
        t.wf(),
    ensures
        r matches Ok(v) && ({
            &&& v@.len() == if t@.len() < 5 {
                t@.len()
            } else {
                5
            }
            &&& (forall|i: int|
                0 <= i < v@.len() ==> t@.contains_key((#[trigger] v@[i])@.id) && v@[i]@
                    == t@[v@[i]@.id])
            &&& (forall|i: int, j: int|
                #![trigger v@[i], v@[j]]
                0 <= i < j < v@.len() ==> recent_before(v@[i]@, v@[j]@))
            &&& (forall|k: u64, i: int|
                #![trigger t@.contains_key(k), v@[i]]
                t@.contains_key(k) && !holds_id(v@, k) && 0 <= i < v@.len() ==> recent_before(
                    v@[i]@,
                    t@[k],
                ))
        }),
{
    let all = scan_recipients(t);
    let mut sorted: Vec<Recipient> = Vec::new();
    let mut idx: usize = 0;
    while idx < all.len()
        invariant
            t.wf(),
            idx <= all@.len(),
            sorted@.len() == idx,
            all@.len() == t@.len(),
            forall|i: int|
                0 <= i < all@.len() ==> t@.contains_key((#[trigger] all@[i])@.id) && all@[i]@
                    == t@[all@[i]@.id],
            forall|i: int, j: int|
                #![trigger all@[i], all@[j]]
                0 <= i < j < all@.len() ==> all@[i]@.id < all@[j]@.id,
            forall|k: u64|
                #[trigger] t@.contains_key(k) ==> exists|i: int|
                    0 <= i < all@.len() && (#[trigger] all@[i])@.id == k,
            sorted_recent(sorted@),
            forall|i: int|
                0 <= i < sorted@.len() ==> t@.contains_key((#[trigger] sorted@[i])@.id)
                    && sorted@[i]@ == t@[sorted@[i]@.id],
            forall|i: int|
                0 <= i < sorted@.len() ==> exists|m: int|
                    0 <= m < idx && (#[trigger] sorted@[i])@.id == all@[m]@.id,
            forall|m: int| 0 <= m < idx ==> holds_id(sorted@, (#[trigger] all@[m])@.id),
        decreases all@.len() - idx,
    {
        let rec = clone_recipient(&all[idx]);
        proof {
            assert forall|i: int| 0 <= i < sorted@.len() implies (#[trigger] sorted@[i])@.id
                != rec@.id by {
                let m = choose|m: int|
                    0 <= m < idx && (#[trigger] sorted@[i])@.id == all@[m]@.id;
                assert(all@[m]@.id < all@[idx as int]@.id);
            }
        }
        let ghost prev = sorted@;
        insert_recent(&mut sorted, rec);
        proof {
            assert forall|i: int| 0 <= i < sorted@.len() implies exists|m: int|
                0 <= m < idx + 1 && (#[trigger] sorted@[i])@.id == all@[m]@.id by {
                if sorted@[i] == rec {
                    assert(0 <= idx < idx + 1 && sorted@[i]@.id == all@[idx as int]@.id);
                } else {
                    assert(prev.contains(sorted@[i]));
                    let p = choose|p: int| 0 <= p < prev.len() && prev[p] == sorted@[i];
                    let m = choose|m: int|
                        0 <= m < idx && (#[trigger] prev[p])@.id == all@[m]@.id;
                    assert(sorted@[i]@.id == all@[m]@.id);
                }
            }
            assert forall|m: int| 0 <= m < idx + 1 implies holds_id(
                sorted@,
                (#[trigger] all@[m])@.id,
            ) by {
                if m < idx {
                    let i = choose|i: int| 0 <= i < prev.len() && (#[trigger] prev[i])@.id
                        == all@[m]@.id;
                    assert(sorted@.contains(prev[i]));
                    let j = choose|j: int| 0 <= j < sorted@.len() && sorted@[j] == prev[i];
                    assert(sorted@[j]@.id == all@[m]@.id);
                } else {
                    let j = choose|j: int| 0 <= j < sorted@.len() && sorted@[j] == rec;
                    assert(sorted@[j]@.id == all@[m]@.id);
                }
            }
        }
        idx = idx + 1;
    }
    let ghost full = sorted@;
    if sorted.len() > 5 {
        sorted.truncate(5);
    }
    proof {
        assert(sorted@ == if full.len() <= 5 {
            full
        } else {
            full.subrange(0, 5)
        });
        assert forall|k: u64, i: int|
            #![trigger t@.contains_key(k), sorted@[i]]
            t@.contains_key(k) && !holds_id(sorted@, k) && 0 <= i < sorted@.len() implies
        recent_before(sorted@[i]@, t@[k]) by {
            let m = choose|m: int| 0 <= m < all@.len() && (#[trigger] all@[m])@.id == k;
            assert(holds_id(full, k));
            let p = choose|p: int| 0 <= p < full.len() && (#[trigger] full[p])@.id == k;
            if p < sorted@.len() {
                assert(sorted@[p]@.id == k);
                assert(false);
            }
            assert(recent_before(full[i]@, full[p]@));
            assert(full[p]@ == t@[k]);
        }
    }
    Ok(sorted)
}

} // verus!

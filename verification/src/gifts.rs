//! The gift table: one durable counter, one ordered durable map of encoded
//! gift records, and the CRUD and search operations over them.

use crate::codec::decode_gift;
use crate::codec::enc_gift;
use crate::codec::encode_gift;
use crate::codec::gift_fits;
use crate::codec::gift_payload_fits;
use crate::codec::lemma_dec_gift_exact;
use crate::codec::lemma_gift_round_trip;
use crate::codec::MAX_ENCODED_SIZE;
use crate::counter::Counter;
use crate::records::Error;
use crate::records::Gift;
use crate::records::GiftPayload;
use crate::records::GiftPayloadView;
use crate::records::GiftView;
use crate::storage::byte_map_get;
use crate::storage::byte_map_init;
use crate::storage::byte_map_insert;
use crate::storage::byte_map_iterate;
use crate::storage::byte_map_remove;
use crate::storage::map_entries;
use crate::storage::region_is_empty;
use crate::storage::ByteMap;
use crate::storage::Region;
use vstd::prelude::*;
use vstd::string::StrSliceExecFns;

verus! {

/// Caller-level validation of a gift payload: every text field is filled.
pub open spec fn gift_payload_valid(p: GiftPayloadView) -> bool {
    p.name.len() > 0 && p.description.len() > 0 && p.status.len() > 0
}

/// One logical table of gift records.
pub struct GiftTable {
    counter: Counter,
    map: ByteMap,
    model: Ghost<Map<u64, GiftView>>,
}

impl GiftTable {
    /// The records the table holds, keyed by their identifiers.
    pub closed spec fn view(self) -> Map<u64, GiftView> {
        self.model@
    }

    /// The last identifier the table handed out.
    pub closed spec fn counter_value(self) -> u64 {
        self.counter.value()
    }

    /// The table's invariant: the durable map holds exactly the encodings
    /// of the modelled records, each under its own identifier, and no
    /// identifier above the counter has ever been used.
    pub closed spec fn wf(self) -> bool {
        &&& map_entries(self.map).dom().finite()
        &&& (forall|k: u64|
            self.model@.contains_key(k) <==> #[trigger] map_entries(self.map).contains_key(k))
        &&& (forall|k: u64|
            #[trigger] self.model@.contains_key(k) ==> map_entries(self.map)[k] == enc_gift(
                self.model@[k],
            ) && gift_fits(self.model@[k]) && self.model@[k].id == k && 1 <= k
                <= self.counter.value())
    }
}

/// Builds the gift table over two freshly allocated regions: one for its
/// identifier counter, one for its record map.
pub fn init_gift_table(counter_region: Region, map_region: Region) -> (t: GiftTable)
    requires
        region_is_empty(counter_region),
        region_is_empty(map_region),
    ensures
        t.wf(),
        t@ == Map::<u64, GiftView>::empty(),
        t.counter_value() == 0,
{
    let counter = Counter::init(counter_region);
    let map = byte_map_init(map_region);
    GiftTable { counter, map, model: Ghost(Map::empty()) }
}

/// Opens the gift table over regions that may already hold a persisted
/// table: loads the counter, reads every stored entry back, and refuses a
/// pair of regions whose contents are not this table's own well-formed
/// encodings under in-range identifiers.  Over empty regions it yields an
/// empty table.
pub fn open_gift_table(counter_region: Region, map_region: Region) -> (r: Result<GiftTable, Error>)
    ensures
        r matches Ok(t) ==> t.wf(),
        r matches Err(e) ==> e == Error::Fatal,
        region_is_empty(counter_region) && region_is_empty(map_region) ==> (r matches Ok(t)
            && t@ == Map::<u64, GiftView>::empty() && t.counter_value() == 0),
{
    let counter = Counter::init(counter_region);
    let limit = counter.current();
    let map = byte_map_init(map_region);
    let pairs = byte_map_iterate(&map);
    let ghost mut model = Map::<u64, GiftView>::empty();
    let mut idx: usize = 0;
    while idx < pairs.len()
        invariant
            idx <= pairs@.len(),
            limit == counter.value(),
            map_entries(map).dom().finite(),
            region_is_empty(map_region) ==> pairs@.len() == 0,
            region_is_empty(counter_region) ==> limit == 0,
            forall|i: int|
                0 <= i < pairs@.len() ==> map_entries(map).contains_key((#[trigger] pairs@[i]).0)
                    && pairs@[i].1@ == map_entries(map)[pairs@[i].0],
            forall|k: u64|
                #[trigger] map_entries(map).contains_key(k) ==> exists|i: int|
                    0 <= i < pairs@.len() && (#[trigger] pairs@[i]).0 == k,
            forall|k: u64|
                #[trigger] model.contains_key(k) ==> exists|i: int|
                    0 <= i < idx && (#[trigger] pairs@[i]).0 == k,
            forall|i: int| 0 <= i < idx ==> model.contains_key((#[trigger] pairs@[i]).0),
            forall|k: u64|
                #[trigger] model.contains_key(k) ==> map_entries(map).contains_key(k)
                    && map_entries(map)[k] == enc_gift(model[k]) && gift_fits(model[k])
                    && model[k].id == k && 1 <= k <= limit,
        decreases pairs@.len() - idx,
    {
        let key = pairs[idx].0;
        if pairs[idx].1.len() > MAX_ENCODED_SIZE {
            return Err(Error::Fatal);
        }
        let g = match decode_gift(&pairs[idx].1) {
            Some(g) => g,
            None => {
                return Err(Error::Fatal);
            },
        };
        if g.id != key || key == 0 || key > limit {
            return Err(Error::Fatal);
        }
        proof {
            lemma_dec_gift_exact(pairs@[idx as int].1@, g@);
            model = model.insert(key, g@);
        }
        idx = idx + 1;
    }
    let t = GiftTable { counter, map, model: Ghost(model) };
    proof {
        assert forall|k: u64|
            t.model@.contains_key(k) <==> #[trigger] map_entries(t.map).contains_key(k) by {
            if map_entries(t.map).contains_key(k) {
                let i = choose|i: int| 0 <= i < pairs@.len() && (#[trigger] pairs@[i]).0 == k;
                assert(model.contains_key(pairs@[i].0));
            }
        }
        if region_is_empty(map_region) {
            assert(model =~= Map::<u64, GiftView>::empty());
        }
    }
    Ok(t)
}

/// Reads the last identifier the table handed out.
pub fn gift_table_counter(t: &GiftTable) -> (v: u64)
    ensures
        v == t.counter_value(),
{
    t.counter.current()
}

/// Looks a gift up by id.
pub fn _get_gift(t: &GiftTable, id: &u64) -> (r: Option<Gift>)
    requires
        t.wf(),
    ensures
        match r {
            Some(g) => t@.contains_key(*id) && g@ == t@[*id],
            None => !t@.contains_key(*id),
        },
{
    match byte_map_get(&t.map, *id) {
        Some(bytes) => {
            proof {
                lemma_gift_round_trip(t@[*id]);
            }
            match decode_gift(&bytes) {
                Some(g) => Some(g),
                None => {
                    proof {
                        assert(false);
                    }
                    None
                },
            }
        },
        None => None,
    }
}

/// Looks a gift up by id, reporting a missing id as an error.
pub fn get_gift(t: &GiftTable, id: u64) -> (r: Result<Gift, Error>)
    requires
        t.wf(),
    ensures
        match r {
            Ok(g) => t@.contains_key(id) && g@ == t@[id],
            Err(e) => !t@.contains_key(id) && e == Error::NotFound,
        },
{
    match _get_gift(t, &id) {
        Some(gift) => Ok(gift),
        None => Err(Error::NotFound),
    }
}

/// Encodes the gift and writes it into the table's map under its own id,
/// creating or overwriting the entry.
pub fn do_insert_gift(t: &mut GiftTable, gift: &Gift)
    requires
        old(t).wf(),
        gift_fits(gift@),
        1 <= gift@.id <= old(t).counter_value(),
    ensures
        final(t).wf(),
        final(t)@ == old(t)@.insert(gift@.id, gift@),
        final(t).counter_value() == old(t).counter_value(),
{
    let bytes = match encode_gift(gift) {
        Ok(b) => b,
        Err(_) => {
            proof {
                assert(false);
            }
            return ;
        },
    };
    let _ = byte_map_insert(&mut t.map, gift.id, bytes);
    proof {
        t.model@ = t.model@.insert(gift.id, gift@);
    }
}

/// Validates the payload, draws the next identifier, stamps the creation
/// timestamp, stores the new record and returns it; an unfilled payload is
/// rejected with no change to the table.
pub fn add_gift(t: &mut GiftTable, payload: GiftPayload, now: u64) -> (r: Option<Gift>)
    requires
        old(t).wf(),
        old(t).counter_value() < u64::MAX,
        gift_payload_fits(payload@),
    ensures
        final(t).wf(),
        !gift_payload_valid(payload@) ==> r is None && *final(t) == *old(t),
        gift_payload_valid(payload@) ==> (r matches Some(g) && ({
            &&& g@.id == old(t).counter_value() + 1
            &&& !old(t)@.contains_key(g@.id)
            &&& g@.name == payload@.name
            &&& g@.recipient_id == payload@.recipient_id
            &&& g@.description == payload@.description
            &&& g@.status == payload@.status
            &&& g@.created_at == now
            &&& g@.updated_at is None
            &&& final(t)@ == old(t)@.insert(g@.id, g@)
            &&& final(t).counter_value() == old(t).counter_value() + 1
        })),
{
    if payload.name.as_str().is_empty() || payload.description.as_str().is_empty()
        || payload.status.as_str().is_empty() {
        return None;
    }
    let id = t.counter.next_id();
    let gift = Gift {
        id,
        name: payload.name,
        recipient_id: payload.recipient_id,
        description: payload.description,
        status: payload.status,
        created_at: now,
        updated_at: None,
    };
    do_insert_gift(t, &gift);
    Some(gift)
}

/// Overwrites the mutable fields of an existing gift and stamps the update
/// timestamp; an unfilled payload or a missing id is rejected with no
/// change to the table.
pub fn update_gift(t: &mut GiftTable, id: u64, payload: GiftPayload, now: u64) -> (r: Result<
    Gift,
    Error,
>)
    requires
        old(t).wf(),
        gift_payload_fits(payload@),
    ensures
        final(t).wf(),
        final(t).counter_value() == old(t).counter_value(),
        !gift_payload_valid(payload@) ==> (r matches Err(e) && e == Error::InvalidInput
            && *final(t) == *old(t)),
        gift_payload_valid(payload@) && !old(t)@.contains_key(id) ==> (r matches Err(e) && e
            == Error::NotFound && *final(t) == *old(t)),
        gift_payload_valid(payload@) && old(t)@.contains_key(id) ==> (r matches Ok(g) && ({
            &&& g@.id == id
            &&& g@.name == payload@.name
            &&& g@.recipient_id == payload@.recipient_id
            &&& g@.description == payload@.description
            &&& g@.status == payload@.status
            &&& g@.created_at == old(t)@[id].created_at
            &&& g@.updated_at == Some(now)
            &&& final(t)@ == old(t)@.insert(id, g@)
        })),
{
    if payload.name.as_str().is_empty() || payload.description.as_str().is_empty()
        || payload.status.as_str().is_empty() {
        return Err(Error::InvalidInput);
    }
    match _get_gift(t, &id) {
        Some(prior) => {
            let gift = Gift {
                id,
                name: payload.name,
                recipient_id: payload.recipient_id,
                description: payload.description,
                status: payload.status,
                created_at: prior.created_at,
                updated_at: Some(now),
            };
            do_insert_gift(t, &gift);
            Ok(gift)
        },
        None => Err(Error::NotFound),
    }
}

/// Removes a gift by id and returns the removed record; a missing id is
/// rejected.
pub fn delete_gift(t: &mut GiftTable, id: u64) -> (r: Result<Gift, Error>)
    requires
        old(t).wf(),
    ensures
        final(t).wf(),
        final(t).counter_value() == old(t).counter_value(),
        match r {
            Ok(g) => old(t)@.contains_key(id) && g@ == old(t)@[id] && final(t)@ == old(t)@.remove(
                id,
            ),
            Err(e) => !old(t)@.contains_key(id) && e == Error::NotFound && final(t)@ == old(t)@,
        },
{
    match byte_map_remove(&mut t.map, id) {
        Some(bytes) => {
            proof {
                lemma_gift_round_trip(old(t)@[id]);
            }
            match decode_gift(&bytes) {
                Some(g) => {
                    proof {
                        t.model@ = t.model@.remove(id);
                    }
                    Ok(g)
                },
                None => {
                    proof {
                        assert(false);
                    }
                    Err(Error::NotFound)
                },
            }
        },
        None => {
            proof {
                assert(map_entries(t.map) =~= map_entries(old(t).map));
            }
            Err(Error::NotFound)
        },
    }
}

/// Decodes every entry of the table in ascending id order.
fn scan_gifts(t: &GiftTable) -> (v: Vec<Gift>)
    requires
        t.wf(),
    ensures
        v@.len() == t@.len(),
        forall|i: int|
            0 <= i < v@.len() ==> t@.contains_key((#[trigger] v@[i])@.id) && v@[i]@ == t@[v@[i]@.id],
        forall|i: int, j: int|
            #![trigger v@[i], v@[j]]
            0 <= i < j < v@.len() ==> v@[i]@.id < v@[j]@.id,
        forall|k: u64|
            #[trigger] t@.contains_key(k) ==> exists|i: int|
                0 <= i < v@.len() && (#[trigger] v@[i])@.id == k,
{
    let pairs = byte_map_iterate(&t.map);
    proof {
        assert(t@.dom() =~= map_entries(t.map).dom());
    }
    let mut v: Vec<Gift> = Vec::new();
    let mut idx: usize = 0;
    while idx < pairs.len()
        invariant
            t.wf(),
            idx <= pairs@.len(),
            v@.len() == idx,
            pairs@.len() == map_entries(t.map).len(),
            forall|i: int|
                0 <= i < pairs@.len() ==> map_entries(t.map).contains_key((#[trigger] pairs@[i]).0)
                    && pairs@[i].1@ == map_entries(t.map)[pairs@[i].0],
            forall|i: int, j: int|
                #![trigger pairs@[i], pairs@[j]]
                0 <= i < j < pairs@.len() ==> pairs@[i].0 < pairs@[j].0,
            forall|k: u64|
                #[trigger] map_entries(t.map).contains_key(k) ==> exists|i: int|
                    0 <= i < pairs@.len() && (#[trigger] pairs@[i]).0 == k,
            forall|i: int|
                0 <= i < idx ==> (#[trigger] v@[i])@.id == pairs@[i].0 && t@.contains_key(
                    pairs@[i].0,
                ) && v@[i]@ == t@[pairs@[i].0],
        decreases pairs@.len() - idx,
    {
        let key = pairs[idx].0;
        proof {
            lemma_gift_round_trip(t@[key]);
        }
        match decode_gift(&pairs[idx].1) {
            Some(g) => {
                v.push(g);
            },
            None => {
                proof {
                    assert(false);
                }
            },
        }
        idx = idx + 1;
    }
    proof {
        assert forall|k: u64| #[trigger] t@.contains_key(k) implies exists|i: int|
            0 <= i < v@.len() && (#[trigger] v@[i])@.id == k by {
            let i = choose|i: int| 0 <= i < pairs@.len() && (#[trigger] pairs@[i]).0 == k;
            assert(v@[i]@.id == k);
        }
    }
    v
}

/// Returns every gift in ascending id order; an empty table is reported as
/// an error.
pub fn get_all_gifts(t: &GiftTable) -> (r: Result<Vec<Gift>, Error>)
    requires
        t.wf(),
    ensures
        t@.len() == 0 ==> (r matches Err(e) && e == Error::NotFound),
        t@.len() != 0 ==> (r matches Ok(v) && ({
            &&& v@.len() == t@.len()
            &&& (forall|i: int|
                0 <= i < v@.len() ==> t@.contains_key((#[trigger] v@[i])@.id) && v@[i]@
                    == t@[v@[i]@.id])
            &&& (forall|i: int, j: int|
                #![trigger v@[i], v@[j]]
                0 <= i < j < v@.len() ==> v@[i]@.id < v@[j]@.id)
            &&& (forall|k: u64|
                #[trigger] t@.contains_key(k) ==> exists|i: int|
                    0 <= i < v@.len() && (#[trigger] v@[i])@.id == k)
        })),
{
    let gifts = scan_gifts(t);
    if gifts.len() != 0 {
        Ok(gifts)
    } else {
        Err(Error::NotFound)
    }
}

/// Copies a gift field by field; the copy denotes the same record.
pub fn clone_gift(g: &Gift) -> (r: Gift)
    ensures
        r@ == g@,
{
    Gift {
        id: g.id,
        name: g.name.clone(),
        recipient_id: g.recipient_id,
        description: g.description.clone(),
        status: g.status.clone(),
        created_at: g.created_at,
        updated_at: g.updated_at,
    }
}

/// What a search query matches: a gift whose name or description equals
/// the query under case folding.
pub open spec fn gift_matches_search(g: GiftView, q: Seq<char>) -> bool {
    lower_of(g.name) == q || lower_of(g.description) == q
}

/// The case folding of a character sequence.
pub uninterp spec fn lower_of(s: Seq<char>) -> Seq<char>;

/// Relies on str::to_lowercase: the result is a function of the characters
/// alone.
#[verifier::external_body]
fn lowercase(s: &str) -> (r: String)
    ensures
        r@ == lower_of(s@),
{
    s.to_lowercase()
}

/// Returns, in ascending id order, every gift whose name or description
/// equals the search input under case folding; no match is reported as an
/// error.
#[verifier::rlimit(100)]
pub fn search_gift(t: &GiftTable, search_input: String) -> (r: Result<Vec<Gift>, Error>)
    requires
        t.wf(),
    ensures
        match r {
            Ok(v) => ({
                &&& v@.len() > 0
                &&& (forall|i: int|
                    0 <= i < v@.len() ==> t@.contains_key((#[trigger] v@[i])@.id) && v@[i]@
                        == t@[v@[i]@.id] && gift_matches_search(v@[i]@, lower_of(search_input@)))
                &&& (forall|i: int, j: int|
                    #![trigger v@[i], v@[j]]
                    0 <= i < j < v@.len() ==> v@[i]@.id < v@[j]@.id)
                &&& (forall|k: u64|
                    #[trigger] t@.contains_key(k) && gift_matches_search(
                        t@[k],
                        lower_of(search_input@),
                    ) ==> exists|i: int| 0 <= i < v@.len() && (#[trigger] v@[i])@.id == k)
            }),
            Err(e) => e == Error::NotFound && (forall|k: u64|
                #[trigger] t@.contains_key(k) ==> !gift_matches_search(
                    t@[k],
                    lower_of(search_input@),
                )),
        },
{
    let q = lowercase(search_input.as_str());
    let all = scan_gifts(t);
    let mut found: Vec<Gift> = Vec::new();
    let mut idx: usize = 0;
    while idx < all.len()
        invariant
            t.wf(),
            idx <= all@.len(),
            q@ == lower_of(search_input@),
            forall|i: int|
                0 <= i < all@.len() ==> t@.contains_key((#[trigger] all@[i])@.id) && all@[i]@
                    == t@[all@[i]@.id],
            forall|i: int, j: int|
                #![trigger all@[i], all@[j]]
                0 <= i < j < all@.len() ==> all@[i]@.id < all@[j]@.id,
            forall|k: u64|
                #[trigger] t@.contains_key(k) ==> exists|i: int|
                    0 <= i < all@.len() && (#[trigger] all@[i])@.id == k,
            forall|i: int|
                0 <= i < found@.len() ==> t@.contains_key((#[trigger] found@[i])@.id) && found@[i]@
                    == t@[found@[i]@.id] && gift_matches_search(
                    found@[i]@,
                    lower_of(search_input@),
                ),
            forall|i: int, j: int|
                #![trigger found@[i], found@[j]]
                0 <= i < j < found@.len() ==> found@[i]@.id < found@[j]@.id,
            forall|i: int|
                0 <= i < found@.len() ==> exists|m: int|
                    0 <= m < idx && (#[trigger] found@[i])@.id == all@[m]@.id,
            forall|m: int|
                0 <= m < idx && gift_matches_search((#[trigger] all@[m])@, lower_of(search_input@))
                    ==> exists|i: int| 0 <= i < found@.len() && (#[trigger] found@[i])@.id
                    == all@[m]@.id,
        decreases all@.len() - idx,
    {
        let gift = &all[idx];
        let name_lower = lowercase(gift.name.as_str());
        let desc_lower = lowercase(gift.description.as_str());
        if name_lower == q || desc_lower == q {
            let ghost prev = found@;
            found.push(clone_gift(gift));
            proof {
                assert(found@[prev.len() as int]@.id == all@[idx as int]@.id);
                assert forall|m: int|
                    0 <= m < idx + 1 && gift_matches_search(
                        (#[trigger] all@[m])@,
                        lower_of(search_input@),
                    ) implies exists|i: int|
                    0 <= i < found@.len() && (#[trigger] found@[i])@.id == all@[m]@.id by {
                    if m < idx {
                        let i = choose|i: int|
                            0 <= i < prev.len() && (#[trigger] prev[i])@.id == all@[m]@.id;
                        assert(found@[i]@.id == all@[m]@.id);
                    } else {
                        assert(found@[prev.len() as int]@.id == all@[m]@.id);
                    }
                }
            }
        } else {
            proof {
                assert(!gift_matches_search(all@[idx as int]@, lower_of(search_input@)));
            }
        }
        idx = idx + 1;
    }
    if found.len() != 0 {
        Ok(found)
    } else {
        proof {
            assert forall|k: u64|
                #[trigger] t@.contains_key(k) implies !gift_matches_search(
                t@[k],
                lower_of(search_input@),
            ) by {
                let m = choose|m: int| 0 <= m < all@.len() && (#[trigger] all@[m])@.id == k;
                assert(all@[m]@ == t@[k]);
            }
        }
        Err(Error::NotFound)
    }
}

} // verus!

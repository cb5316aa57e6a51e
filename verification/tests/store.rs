use jingle_all_the_way_backend::codec::decode_gift;
use jingle_all_the_way_backend::codec::decode_recipient;
use jingle_all_the_way_backend::codec::encode_gift;
use jingle_all_the_way_backend::codec::encode_recipient;
use jingle_all_the_way_backend::counter::Counter;
use jingle_all_the_way_backend::gifts::add_gift;
use jingle_all_the_way_backend::gifts::delete_gift;
use jingle_all_the_way_backend::gifts::get_all_gifts;
use jingle_all_the_way_backend::gifts::get_gift;
use jingle_all_the_way_backend::gifts::gift_table_counter;
use jingle_all_the_way_backend::gifts::init_gift_table;
use jingle_all_the_way_backend::gifts::search_gift;
use jingle_all_the_way_backend::gifts::update_gift;
use jingle_all_the_way_backend::gifts::GiftTable;
use jingle_all_the_way_backend::recipients::add_recipient;
use jingle_all_the_way_backend::recipients::delete_recipient;
use jingle_all_the_way_backend::recipients::get_all_recipients;
use jingle_all_the_way_backend::recipients::get_recent_recipients;
use jingle_all_the_way_backend::recipients::get_recipient;
use jingle_all_the_way_backend::recipients::init_recipient_table;
use jingle_all_the_way_backend::recipients::recipient_table_counter;
use jingle_all_the_way_backend::recipients::update_recipient;
use jingle_all_the_way_backend::recipients::RecipientTable;
use jingle_all_the_way_backend::records::Error;
use jingle_all_the_way_backend::records::Gift;
use jingle_all_the_way_backend::records::GiftPayload;
use jingle_all_the_way_backend::records::Recipient;
use jingle_all_the_way_backend::records::RecipientPayload;
use jingle_all_the_way_backend::storage::byte_map_get;
use jingle_all_the_way_backend::storage::byte_map_init;
use jingle_all_the_way_backend::storage::byte_map_insert;
use jingle_all_the_way_backend::storage::byte_map_iterate;
use jingle_all_the_way_backend::gifts::open_gift_table;
use jingle_all_the_way_backend::recipients::open_recipient_table;
use jingle_all_the_way_backend::storage::new_region_allocator;
use jingle_all_the_way_backend::storage::open_region_allocator;
use jingle_all_the_way_backend::storage::region;

fn fresh_gift_table() -> GiftTable {
    let mut alloc = new_region_allocator().unwrap();
    let counter_region = region(&mut alloc, 0);
    let map_region = region(&mut alloc, 2);
    init_gift_table(counter_region, map_region)
}

fn fresh_recipient_table() -> RecipientTable {
    let mut alloc = new_region_allocator().unwrap();
    let counter_region = region(&mut alloc, 1);
    let map_region = region(&mut alloc, 3);
    init_recipient_table(counter_region, map_region)
}

fn gift_payload(name: &str, recipient_id: u64, description: &str, status: &str) -> GiftPayload {
    GiftPayload {
        name: name.to_string(),
        recipient_id,
        description: description.to_string(),
        status: status.to_string(),
    }
}

fn recipient_payload(name: &str, relationship: &str) -> RecipientPayload {
    RecipientPayload { name: name.to_string(), relationship: relationship.to_string() }
}

// Round-trip: decoding the encoding of a record gives the record back.

#[test]
fn gift_round_trips_through_codec() {
    let gift = Gift {
        id: 7,
        name: "Toy train".to_string(),
        recipient_id: 3,
        description: "Wooden, hand painted".to_string(),
        status: "wrapped".to_string(),
        created_at: 1234,
        updated_at: Some(5678),
    };
    let bytes = encode_gift(&gift).unwrap();
    assert!(bytes.len() <= 1024);
    let back = decode_gift(&bytes).unwrap();
    assert_eq!(back.id, 7);
    assert_eq!(back.name, "Toy train");
    assert_eq!(back.recipient_id, 3);
    assert_eq!(back.description, "Wooden, hand painted");
    assert_eq!(back.status, "wrapped");
    assert_eq!(back.created_at, 1234);
    assert_eq!(back.updated_at, Some(5678));
}

#[test]
fn recipient_round_trips_through_codec() {
    let rec = Recipient {
        id: 1,
        name: "Ada".to_string(),
        relationship: "Grandmother".to_string(),
        created_at: 42,
        updated_at: None,
    };
    let bytes = encode_recipient(&rec).unwrap();
    assert!(bytes.len() <= 1024);
    let back = decode_recipient(&bytes).unwrap();
    assert_eq!(back.id, 1);
    assert_eq!(back.name, "Ada");
    assert_eq!(back.relationship, "Grandmother");
    assert_eq!(back.created_at, 42);
    assert_eq!(back.updated_at, None);
}

#[test]
fn codec_round_trips_non_ascii_text() {
    let rec = Recipient {
        id: 9,
        name: "Zoë 🎄".to_string(),
        relationship: "Sœur".to_string(),
        created_at: 1,
        updated_at: None,
    };
    let bytes = encode_recipient(&rec).unwrap();
    let back = decode_recipient(&bytes).unwrap();
    assert_eq!(back.name, "Zoë 🎄");
    assert_eq!(back.relationship, "Sœur");
}

// Bound enforcement: an oversize record is rejected before anything is
// written.

#[test]
fn oversize_gift_is_rejected_as_fatal() {
    let gift = Gift {
        id: 1,
        name: "n".repeat(300),
        recipient_id: 1,
        description: "d".to_string(),
        status: "s".to_string(),
        created_at: 0,
        updated_at: None,
    };
    assert_eq!(encode_gift(&gift), Err(Error::Fatal));
}

#[test]
fn oversize_recipient_is_rejected_as_fatal() {
    let rec = Recipient {
        id: 1,
        name: "n".repeat(260),
        relationship: "r".to_string(),
        created_at: 0,
        updated_at: None,
    };
    assert_eq!(encode_recipient(&rec), Err(Error::Fatal));
}

#[test]
fn largest_fitting_gift_is_accepted() {
    // 24 + 1 + 6 + 4 * (118 + 60 + 60) = 983 <= 1024, and one more
    // hundred characters would cross the bound.
    let gift = Gift {
        id: u64::MAX,
        name: "n".repeat(118),
        recipient_id: u64::MAX,
        description: "d".repeat(60),
        status: "s".repeat(60),
        created_at: u64::MAX,
        updated_at: None,
    };
    let bytes = encode_gift(&gift).unwrap();
    assert!(bytes.len() <= 1024);
    let back = decode_gift(&bytes).unwrap();
    assert_eq!(back.name.len(), 118);
    assert_eq!(back.id, u64::MAX);
}

#[test]
fn decoder_rejects_garbage() {
    assert!(decode_gift(&vec![1u8, 2, 3]).is_none());
    assert!(decode_recipient(&vec![]).is_none());
    // A valid gift encoding with a trailing byte is refused too.
    let gift = Gift {
        id: 1,
        name: "a".to_string(),
        recipient_id: 1,
        description: "b".to_string(),
        status: "c".to_string(),
        created_at: 0,
        updated_at: None,
    };
    let mut bytes = encode_gift(&gift).unwrap();
    bytes.push(0);
    assert!(decode_gift(&bytes).is_none());
}

// Id monotonicity, with and without a simulated restart.

#[test]
fn next_id_is_strictly_increasing() {
    let mut alloc = new_region_allocator().unwrap();
    let mut counter = Counter::init(region(&mut alloc, 0));
    assert_eq!(counter.current(), 0);
    let a = counter.next_id();
    let b = counter.next_id();
    let c = counter.next_id();
    assert_eq!((a, b, c), (1, 2, 3));
    assert_eq!(counter.current(), 3);
}

#[test]
fn next_id_survives_reinitialization() {
    let mut alloc = new_region_allocator().unwrap();
    let mut counter = Counter::init(region(&mut alloc, 0));
    let a = counter.next_id();
    let b = counter.next_id();
    let counter = counter.reopen();
    assert_eq!(counter.current(), 2);
    let mut counter = counter;
    let c = counter.next_id();
    assert!(a < b && b < c);
    assert_eq!(c, 3);
}

// CRUD lifecycle.

#[test]
fn create_then_read_returns_created_record() {
    let mut t = fresh_gift_table();
    let created = add_gift(&mut t, gift_payload("Socks", 2, "Wool", "bought"), 100).unwrap();
    assert_eq!(created.id, 1);
    assert_eq!(created.created_at, 100);
    assert_eq!(created.updated_at, None);
    let read = get_gift(&t, 1).unwrap();
    assert_eq!(read.name, "Socks");
    assert_eq!(read.recipient_id, 2);
    assert_eq!(read.description, "Wool");
    assert_eq!(read.status, "bought");
    assert_eq!(read.created_at, 100);
    assert_eq!(read.updated_at, None);
}

#[test]
fn update_changes_fields_and_stamps_timestamp() {
    let mut t = fresh_gift_table();
    add_gift(&mut t, gift_payload("Socks", 2, "Wool", "bought"), 100).unwrap();
    let updated = update_gift(&mut t, 1, gift_payload("Scarf", 4, "Silk", "wrapped"), 200)
        .unwrap();
    assert_eq!(updated.name, "Scarf");
    assert_eq!(updated.recipient_id, 4);
    assert_eq!(updated.created_at, 100);
    assert_eq!(updated.updated_at, Some(200));
    let read = get_gift(&t, 1).unwrap();
    assert_eq!(read.status, "wrapped");
    assert_eq!(read.updated_at, Some(200));
}

#[test]
fn update_missing_id_is_not_found() {
    let mut t = fresh_gift_table();
    let r = update_gift(&mut t, 9, gift_payload("a", 1, "b", "c"), 5);
    assert_eq!(r.unwrap_err(), Error::NotFound);
}

#[test]
fn delete_missing_id_is_not_found() {
    let mut t = fresh_gift_table();
    assert_eq!(delete_gift(&mut t, 1).unwrap_err(), Error::NotFound);
}

#[test]
fn table_counters_advance_only_on_create() {
    let mut g = fresh_gift_table();
    assert_eq!(gift_table_counter(&g), 0);
    add_gift(&mut g, gift_payload("a", 1, "b", "c"), 1).unwrap();
    add_gift(&mut g, gift_payload("d", 1, "e", "f"), 2).unwrap();
    delete_gift(&mut g, 1).unwrap();
    update_gift(&mut g, 2, gift_payload("g", 1, "h", "i"), 3).unwrap();
    assert_eq!(gift_table_counter(&g), 2);
    let mut r = fresh_recipient_table();
    add_recipient(&mut r, recipient_payload("x", "y"), 1).unwrap();
    assert_eq!(recipient_table_counter(&r), 1);
    // A deleted id is never reused: the next create still draws a fresh id.
    let again = add_gift(&mut g, gift_payload("j", 1, "k", "l"), 4).unwrap();
    assert_eq!(again.id, 3);
}

#[test]
fn delete_then_read_is_absent() {
    let mut t = fresh_gift_table();
    add_gift(&mut t, gift_payload("Socks", 2, "Wool", "bought"), 100).unwrap();
    let removed = delete_gift(&mut t, 1).unwrap();
    assert_eq!(removed.name, "Socks");
    assert_eq!(get_gift(&t, 1).unwrap_err(), Error::NotFound);
}

#[test]
fn invalid_payload_is_rejected() {
    let mut t = fresh_gift_table();
    assert!(add_gift(&mut t, gift_payload("", 1, "b", "c"), 5).is_none());
    add_gift(&mut t, gift_payload("a", 1, "b", "c"), 5).unwrap();
    let r = update_gift(&mut t, 1, gift_payload("a", 1, "", "c"), 6);
    assert_eq!(r.unwrap_err(), Error::InvalidInput);
}

#[test]
fn recipient_crud_lifecycle() {
    let mut t = fresh_recipient_table();
    let created = add_recipient(&mut t, recipient_payload("Ada", "Grandmother"), 10).unwrap();
    assert_eq!(created.id, 1);
    let read = get_recipient(&t, 1).unwrap();
    assert_eq!(read.name, "Ada");
    assert_eq!(read.relationship, "Grandmother");
    let updated = update_recipient(&mut t, 1, recipient_payload("Ada", "Friend"), 20).unwrap();
    assert_eq!(updated.relationship, "Friend");
    assert_eq!(updated.created_at, 10);
    assert_eq!(updated.updated_at, Some(20));
    assert_eq!(
        update_recipient(&mut t, 2, recipient_payload("x", "y"), 30).unwrap_err(),
        Error::NotFound
    );
    let removed = delete_recipient(&mut t, 1).unwrap();
    assert_eq!(removed.relationship, "Friend");
    assert_eq!(get_recipient(&t, 1).unwrap_err(), Error::NotFound);
    assert_eq!(delete_recipient(&mut t, 1).unwrap_err(), Error::NotFound);
    assert!(add_recipient(&mut t, recipient_payload("", "y"), 1).is_none());
}

// Map ordering and overwrite semantics, at the ordered durable map.

#[test]
fn iteration_is_in_ascending_key_order() {
    let mut alloc = new_region_allocator().unwrap();
    let mut map = byte_map_init(region(&mut alloc, 0));
    byte_map_insert(&mut map, 5, vec![55]);
    byte_map_insert(&mut map, 1, vec![11]);
    byte_map_insert(&mut map, 3, vec![33]);
    let entries = byte_map_iterate(&map);
    let keys: Vec<u64> = entries.iter().map(|e| e.0).collect();
    assert_eq!(keys, vec![1, 3, 5]);
}

#[test]
fn insert_overwrites_without_duplicates() {
    let mut alloc = new_region_allocator().unwrap();
    let mut map = byte_map_init(region(&mut alloc, 0));
    assert_eq!(byte_map_insert(&mut map, 7, vec![1]), None);
    assert_eq!(byte_map_insert(&mut map, 7, vec![2]), Some(vec![1]));
    assert_eq!(byte_map_get(&map, 7), Some(vec![2]));
    assert_eq!(byte_map_iterate(&map).len(), 1);
}

#[test]
fn tables_scan_in_ascending_id_order() {
    let mut t = fresh_gift_table();
    add_gift(&mut t, gift_payload("a", 1, "x", "s"), 1).unwrap();
    add_gift(&mut t, gift_payload("b", 1, "x", "s"), 2).unwrap();
    add_gift(&mut t, gift_payload("c", 1, "x", "s"), 3).unwrap();
    delete_gift(&mut t, 2).unwrap();
    let all = get_all_gifts(&t).unwrap();
    let ids: Vec<u64> = all.iter().map(|g| g.id).collect();
    assert_eq!(ids, vec![1, 3]);
}

#[test]
fn empty_tables_report_not_found() {
    let t = fresh_gift_table();
    assert_eq!(get_all_gifts(&t).unwrap_err(), Error::NotFound);
    let r = fresh_recipient_table();
    assert_eq!(get_all_recipients(&r).unwrap_err(), Error::NotFound);
}

#[test]
fn recent_recipients_of_empty_table_is_empty() {
    let r = fresh_recipient_table();
    assert_eq!(get_recent_recipients(&r).unwrap().len(), 0);
}

// Reopening persisted tables.

#[test]
fn tables_reload_persisted_records() {
    // On this host a second handle to a region id reaches the same backing
    // storage, which is what re-opening after a restart amounts to.
    let mut alloc = open_region_allocator();
    let mut t = open_gift_table(region(&mut alloc, 0), region(&mut alloc, 2)).unwrap();
    add_gift(&mut t, gift_payload("Socks", 2, "Wool", "bought"), 100).unwrap();
    add_gift(&mut t, gift_payload("Hat", 2, "Felt", "idea"), 110).unwrap();
    delete_gift(&mut t, 1).unwrap();
    drop(t);
    let t2 = open_gift_table(region(&mut alloc, 0), region(&mut alloc, 2)).unwrap();
    assert_eq!(gift_table_counter(&t2), 2);
    let g = get_gift(&t2, 2).unwrap();
    assert_eq!(g.name, "Hat");
    assert_eq!(g.created_at, 110);
    assert_eq!(get_gift(&t2, 1).unwrap_err(), Error::NotFound);
}

#[test]
fn opening_over_foreign_data_is_fatal() {
    let mut alloc = open_region_allocator();
    let mut map = byte_map_init(region(&mut alloc, 2));
    byte_map_insert(&mut map, 1, vec![1, 2, 3]);
    drop(map);
    let r = open_gift_table(region(&mut alloc, 0), region(&mut alloc, 2));
    assert!(matches!(r, Err(Error::Fatal)));
}

#[test]
fn opening_rejects_ids_above_the_counter() {
    let mut alloc = open_region_allocator();
    let mut t = open_recipient_table(region(&mut alloc, 1), region(&mut alloc, 3)).unwrap();
    add_recipient(&mut t, recipient_payload("Ada", "Friend"), 5).unwrap();
    drop(t);
    // The same records under a counter region that never drew their ids.
    let r = open_recipient_table(region(&mut alloc, 6), region(&mut alloc, 3));
    assert!(matches!(r, Err(Error::Fatal)));
}

// Recent-N ordering.

#[test]
fn recent_recipients_come_most_recent_first() {
    let mut t = fresh_recipient_table();
    for stamp in [10u64, 30, 20, 40, 5] {
        add_recipient(&mut t, recipient_payload("p", "q"), stamp).unwrap();
    }
    let recent = get_recent_recipients(&t).unwrap();
    let stamps: Vec<u64> = recent.iter().map(|r| r.created_at).collect();
    assert_eq!(&stamps[..3], &[40, 30, 20]);
    assert_eq!(stamps, vec![40, 30, 20, 10, 5]);
}

#[test]
fn recent_recipients_keep_at_most_five() {
    let mut t = fresh_recipient_table();
    for stamp in [1u64, 2, 3, 4, 5, 6, 7] {
        add_recipient(&mut t, recipient_payload("p", "q"), stamp).unwrap();
    }
    let recent = get_recent_recipients(&t).unwrap();
    let stamps: Vec<u64> = recent.iter().map(|r| r.created_at).collect();
    assert_eq!(stamps, vec![7, 6, 5, 4, 3]);
}

#[test]
fn recent_ties_keep_ascending_id_order() {
    let mut t = fresh_recipient_table();
    add_recipient(&mut t, recipient_payload("a", "q"), 50).unwrap();
    add_recipient(&mut t, recipient_payload("b", "q"), 50).unwrap();
    add_recipient(&mut t, recipient_payload("c", "q"), 60).unwrap();
    let recent = get_recent_recipients(&t).unwrap();
    let pairs: Vec<(u64, u64)> = recent.iter().map(|r| (r.created_at, r.id)).collect();
    assert_eq!(pairs, vec![(60, 3), (50, 1), (50, 2)]);
}

// Search.

#[test]
fn search_matches_name_or_description_case_insensitively() {
    let mut t = fresh_gift_table();
    add_gift(&mut t, gift_payload("Toy Train", 1, "wooden", "bought"), 1).unwrap();
    add_gift(&mut t, gift_payload("Book", 1, "Toy Train", "bought"), 2).unwrap();
    add_gift(&mut t, gift_payload("Scarf", 1, "silk", "bought"), 3).unwrap();
    let found = search_gift(&t, "toy train".to_string()).unwrap();
    let ids: Vec<u64> = found.iter().map(|g| g.id).collect();
    assert_eq!(ids, vec![1, 2]);
}

#[test]
fn search_without_match_is_not_found() {
    let mut t = fresh_gift_table();
    add_gift(&mut t, gift_payload("Toy", 1, "wooden", "bought"), 1).unwrap();
    assert_eq!(search_gift(&t, "car".to_string()).unwrap_err(), Error::NotFound);
}

// The two tables share one allocator without interfering.

#[test]
fn two_tables_share_one_allocator() {
    let mut alloc = new_region_allocator().unwrap();
    let g0 = region(&mut alloc, 0);
    let g2 = region(&mut alloc, 2);
    let r1 = region(&mut alloc, 1);
    let r3 = region(&mut alloc, 3);
    let mut gifts = init_gift_table(g0, g2);
    let mut recipients = init_recipient_table(r1, r3);
    add_gift(&mut gifts, gift_payload("a", 1, "b", "c"), 1).unwrap();
    add_recipient(&mut recipients, recipient_payload("x", "y"), 2).unwrap();
    assert_eq!(get_all_gifts(&gifts).unwrap().len(), 1);
    assert_eq!(get_all_recipients(&recipients).unwrap().len(), 1);
}

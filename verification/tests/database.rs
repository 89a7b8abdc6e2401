use maars::bytes::u64_to_be_bytes;
use maars::database::{
    device_key, drop, drop_all, get_all_uuid, get_last_msg, get_msg, insert_msg,
    maa_store_callback, partition_names, store_event, DbError, Msg, MsgDb,
};
use maars::json::Member;
use maars::maa_sys::MessageType;

fn fresh() -> sled::Db {
    sled::Config::new().temporary(true).open().unwrap()
}

fn msg(uuid: &str, time: i64, body: &str) -> Msg {
    Msg { time, type_: MessageType::new(7), uuid: uuid.to_string(), body: body.to_string() }
}

#[test]
fn read_last_returns_appends_in_reverse() {
    let mut log = MsgDb::new(fresh());
    let mut ids = Vec::new();
    for i in 0..5 {
        ids.push(insert_msg(&mut log, &msg("device", 100 + i, &format!("{{\"n\":{}}}", i))).unwrap());
    }
    for pair in ids.windows(2) {
        assert!(pair[0] < pair[1]);
    }
    let read = get_last_msg(&mut log, "device", 5).unwrap();
    let times: Vec<i64> = read.iter().map(|m| m.time).collect();
    assert_eq!(times, vec![104, 103, 102, 101, 100]);
    let bodies: Vec<&str> = read.iter().map(|m| m.body.as_str()).collect();
    assert_eq!(bodies, vec!["{\"n\":4}", "{\"n\":3}", "{\"n\":2}", "{\"n\":1}", "{\"n\":0}"]);
    assert!(read.iter().all(|m| m.uuid == "device" && m.type_ == MessageType::new(7)));
}

#[test]
fn read_last_takes_the_newest_only() {
    let mut log = MsgDb::new(fresh());
    for i in 0..5 {
        insert_msg(&mut log, &msg("device", i, "{}")).unwrap();
    }
    let read = get_last_msg(&mut log, "device", 2).unwrap();
    let times: Vec<i64> = read.iter().map(|m| m.time).collect();
    assert_eq!(times, vec![4, 3]);
}

#[test]
fn read_last_of_fewer_than_asked_returns_all() {
    let mut log = MsgDb::new(fresh());
    for i in 0..3 {
        insert_msg(&mut log, &msg("device", i, "{}")).unwrap();
    }
    let read = get_last_msg(&mut log, "device", 10).unwrap();
    let times: Vec<i64> = read.iter().map(|m| m.time).collect();
    assert_eq!(times, vec![2, 1, 0]);
    let all = get_last_msg(&mut log, "device", usize::MAX).unwrap();
    assert_eq!(all.len(), 3);
}

#[test]
fn read_last_of_nothing_asked_returns_nothing() {
    let mut log = MsgDb::new(fresh());
    insert_msg(&mut log, &msg("device", 1, "{}")).unwrap();
    assert!(get_last_msg(&mut log, "device", 0).unwrap().is_empty());
    assert_eq!(get_all_uuid(&log).unwrap(), vec!["device".to_string()]);
}

#[test]
fn read_last_of_a_partition_never_created_is_empty() {
    let mut log = MsgDb::new(fresh());
    let read = get_last_msg(&mut log, "nobody", 4).unwrap();
    assert!(read.is_empty());
    assert!(get_all_uuid(&log).unwrap().is_empty());
}

#[test]
fn partitions_do_not_mix() {
    let mut log = MsgDb::new(fresh());
    insert_msg(&mut log, &msg("a", 1, "{}")).unwrap();
    insert_msg(&mut log, &msg("b", 2, "{}")).unwrap();
    insert_msg(&mut log, &msg("a", 3, "{}")).unwrap();
    let a: Vec<i64> = get_last_msg(&mut log, "a", 9).unwrap().iter().map(|m| m.time).collect();
    let b: Vec<i64> = get_last_msg(&mut log, "b", 9).unwrap().iter().map(|m| m.time).collect();
    assert_eq!(a, vec![3, 1]);
    assert_eq!(b, vec![2]);
}

#[test]
fn message_is_found_under_its_sequence_number() {
    let mut log = MsgDb::new(fresh());
    let first = insert_msg(&mut log, &msg("device", 11, "{\"a\":1}")).unwrap();
    let second = insert_msg(&mut log, &msg("device", 12, "{\"a\":2}")).unwrap();
    assert_ne!(first, second);
    let found = get_msg(&mut log, "device", first).unwrap().unwrap();
    assert_eq!(found.time, 11);
    assert_eq!(found.body, "{\"a\":1}");
    assert_eq!(found.uuid, "device");
    let found = get_msg(&mut log, "device", second).unwrap().unwrap();
    assert_eq!(found.time, 12);
    assert!(get_msg(&mut log, "device", second + 1000).unwrap().is_none());
    assert!(get_msg(&mut log, "other", first).unwrap().is_none());
}

#[test]
fn looking_for_a_message_makes_no_partition() {
    let mut log = MsgDb::new(fresh());
    insert_msg(&mut log, &msg("known", 1, "{}")).unwrap();
    assert!(get_msg(&mut log, "nobody", 0).unwrap().is_none());
    assert!(get_msg(&mut log, "nobody", 7).unwrap().is_none());
    assert_eq!(get_all_uuid(&log).unwrap(), vec!["known".to_string()]);
    assert!(get_msg(&mut log, "known", 12345).unwrap().is_none());
    assert_eq!(get_all_uuid(&log).unwrap(), vec!["known".to_string()]);
    assert_eq!(get_last_msg(&mut log, "known", 5).unwrap().len(), 1);
    let db = log.into_inner();
    let names: Vec<Vec<u8>> = db.tree_names().into_iter().map(|n| n.to_vec()).collect();
    assert!(!names.contains(&b"nobody".to_vec()));
}

#[test]
fn looking_into_a_partition_that_holds_nothing_drops_it() {
    let db = fresh();
    db.open_tree("idle").unwrap();
    let mut log = MsgDb::new(db);
    assert_eq!(get_all_uuid(&log).unwrap(), vec!["idle".to_string()]);
    assert!(get_msg(&mut log, "idle", 1).unwrap().is_none());
    assert!(get_all_uuid(&log).unwrap().is_empty());
}

#[test]
fn drop_all_refuses_a_name_that_is_no_text_and_drops_nothing() {
    let db = fresh();
    db.open_tree(vec![0xffu8, 0xfe]).unwrap();
    let mut log = MsgDb::new(db);
    insert_msg(&mut log, &msg("one", 1, "{}")).unwrap();
    assert!(matches!(drop_all(&mut log), Err(DbError::InvalidUtf8String(_))));
    assert_eq!(get_last_msg(&mut log, "one", 5).unwrap().len(), 1);
    let db = log.into_inner();
    assert_eq!(db.tree_names().len(), 3);
}

#[test]
fn messages_are_stored_under_big_endian_keys() {
    let mut log = MsgDb::new(fresh());
    let m = msg("device", 5, "{}");
    let id = insert_msg(&mut log, &m).unwrap();
    let db = log.into_inner();
    let stored = db.open_tree("device").unwrap().get(u64_to_be_bytes(id)).unwrap().unwrap();
    assert_eq!(stored.to_vec(), m.to_ivec());
}

#[test]
fn all_uuids_leave_out_the_stores_own_tree() {
    let db = fresh();
    let names: Vec<Vec<u8>> = db.tree_names().into_iter().map(|n| n.to_vec()).collect();
    assert!(names.contains(&b"__sled__default".to_vec()));
    let mut log = MsgDb::new(db);
    insert_msg(&mut log, &msg("one", 1, "{}")).unwrap();
    insert_msg(&mut log, &msg("two", 2, "{}")).unwrap();
    let mut uuids = get_all_uuid(&log).unwrap();
    uuids.sort();
    assert_eq!(uuids, vec!["one".to_string(), "two".to_string()]);
}

#[test]
fn partition_names_keep_order_and_skip_the_reserved_name() {
    let names = vec![b"b".to_vec(), b"__sled__default".to_vec(), b"a".to_vec()];
    assert_eq!(partition_names(&names).unwrap(), vec!["b".to_string(), "a".to_string()]);
    assert!(partition_names(&Vec::new()).unwrap().is_empty());
}

#[test]
fn partition_name_that_is_no_text_is_an_error() {
    let names = vec![b"a".to_vec(), vec![0xc3, 0x28]];
    assert!(matches!(partition_names(&names), Err(DbError::InvalidUtf8String(_))));
    let db = fresh();
    db.open_tree(vec![0xffu8, 0xfe]).unwrap();
    let log = MsgDb::new(db);
    assert!(matches!(get_all_uuid(&log), Err(DbError::InvalidUtf8String(_))));
}

#[test]
fn drop_removes_one_partition_and_is_idempotent() {
    let mut log = MsgDb::new(fresh());
    insert_msg(&mut log, &msg("one", 1, "{}")).unwrap();
    insert_msg(&mut log, &msg("two", 2, "{}")).unwrap();
    drop(&mut log, "one").unwrap();
    assert_eq!(get_all_uuid(&log).unwrap(), vec!["two".to_string()]);
    assert!(get_last_msg(&mut log, "one", 5).unwrap().is_empty());
    drop(&mut log, "one").unwrap();
    drop(&mut log, "never").unwrap();
    assert_eq!(get_last_msg(&mut log, "two", 5).unwrap().len(), 1);
}

#[test]
fn drop_of_the_stores_own_tree_fails() {
    let mut log = MsgDb::new(fresh());
    assert!(matches!(drop(&mut log, "__sled__default"), Err(DbError::Sled(_))));
}

#[test]
fn drop_all_empties_the_log() {
    let mut log = MsgDb::new(fresh());
    for name in ["one", "two", "three"] {
        insert_msg(&mut log, &msg(name, 1, "{}")).unwrap();
    }
    drop_all(&mut log).unwrap();
    assert!(get_all_uuid(&log).unwrap().is_empty());
    for name in ["one", "two", "three"] {
        assert!(get_last_msg(&mut log, name, 5).unwrap().is_empty());
    }
    drop_all(&mut log).unwrap();
}

#[test]
fn sequence_numbers_go_on_after_a_drop() {
    let mut log = MsgDb::new(fresh());
    let first = insert_msg(&mut log, &msg("device", 1, "{}")).unwrap();
    drop(&mut log, "device").unwrap();
    let second = insert_msg(&mut log, &msg("device", 2, "{}")).unwrap();
    assert_eq!(second, first + 1);
    let read = get_last_msg(&mut log, "device", 5).unwrap();
    assert_eq!(read.len(), 1);
    assert_eq!(read[0].time, 2);
}

#[test]
fn short_record_in_the_log_is_an_error() {
    let db = fresh();
    db.open_tree("device").unwrap().insert(u64::MAX.to_be_bytes(), vec![1u8, 2, 3]).unwrap();
    let mut log = MsgDb::new(db);
    insert_msg(&mut log, &msg("device", 1, "{}")).unwrap();
    assert!(matches!(get_last_msg(&mut log, "device", 2), Err(DbError::IVecNotLongEnough)));
    assert!(matches!(get_msg(&mut log, "device", u64::MAX), Err(DbError::IVecNotLongEnough)));
}

#[test]
fn unreadable_record_beyond_the_window_is_not_read() {
    let db = fresh();
    db.open_tree("device").unwrap().insert(0u64.to_be_bytes(), vec![1u8, 2, 3]).unwrap();
    db.generate_id().unwrap();
    let mut log = MsgDb::new(db);
    insert_msg(&mut log, &msg("device", 8, "{}")).unwrap();
    insert_msg(&mut log, &msg("device", 9, "{}")).unwrap();
    let read = get_last_msg(&mut log, "device", 2).unwrap();
    assert_eq!(read.iter().map(|m| m.time).collect::<Vec<i64>>(), vec![9, 8]);
    assert!(matches!(get_last_msg(&mut log, "device", 3), Err(DbError::IVecNotLongEnough)));
}

#[test]
fn record_whose_body_is_no_text_is_an_error() {
    let db = fresh();
    let mut record = vec![0u8; 12];
    record.extend_from_slice(&[0xff, 0xff]);
    db.open_tree("device").unwrap().insert(7u64.to_be_bytes(), record).unwrap();
    let mut log = MsgDb::new(db);
    assert!(matches!(get_last_msg(&mut log, "device", 1), Err(DbError::InvalidUtf8String(_))));
    assert!(matches!(get_msg(&mut log, "device", 7), Err(DbError::InvalidUtf8String(_))));
}

#[test]
fn event_is_stored_under_the_uuid_it_names() {
    let mut log = MsgDb::new(fresh());
    let body = "{\"uuid\":\"abc\",\"what\":1}";
    let id = store_event(&mut log, 42, MessageType::new(3), body).unwrap().unwrap();
    assert_eq!(get_all_uuid(&log).unwrap(), vec!["abc".to_string()]);
    assert!(get_last_msg(&mut log, "\"abc\"", 1).unwrap().is_empty());
    let found = get_msg(&mut log, "abc", id).unwrap().unwrap();
    assert_eq!(found.time, 42);
    assert_eq!(found.type_, MessageType::new(3));
    assert_eq!(found.body, body);
    assert!(get_last_msg(&mut log, body, 1).unwrap().is_empty());
}

#[test]
fn event_uuid_keeps_what_the_identifier_holds() {
    let mut log = MsgDb::new(fresh());
    store_event(&mut log, 1, MessageType::new(0), "{\"uuid\": \"a \\\"b\\\" \\u00e9\"}").unwrap().unwrap();
    assert_eq!(get_all_uuid(&log).unwrap(), vec!["a \"b\" \u{e9}".to_string()]);
}

#[test]
fn event_uuid_that_is_no_string_is_json_text() {
    let mut log = MsgDb::new(fresh());
    store_event(&mut log, 1, MessageType::new(0), "{\"uuid\": 17}").unwrap().unwrap();
    store_event(&mut log, 2, MessageType::new(0), "{\"uuid\": {\"b\": [1, 2]}}").unwrap().unwrap();
    let mut uuids = get_all_uuid(&log).unwrap();
    uuids.sort();
    assert_eq!(uuids, vec!["17".to_string(), "{\"b\":[1,2]}".to_string()]);
}

#[test]
fn event_without_uuid_is_dropped() {
    let mut log = MsgDb::new(fresh());
    assert_eq!(store_event(&mut log, 1, MessageType::new(0), "{\"what\":1}").unwrap(), None);
    assert_eq!(store_event(&mut log, 1, MessageType::new(0), "[1, 2]").unwrap(), None);
    assert!(get_all_uuid(&log).unwrap().is_empty());
}

#[test]
fn event_that_is_not_json_is_refused() {
    let mut log = MsgDb::new(fresh());
    let r = store_event(&mut log, 1, MessageType::new(0), "{\"uuid\":");
    assert!(matches!(r, Err(DbError::SerdeJson(_))));
    assert!(get_all_uuid(&log).unwrap().is_empty());
}

#[test]
fn callback_stores_and_swallows() {
    let mut log = MsgDb::new(fresh());
    maa_store_callback(&mut log, 1_700_000_000_000, MessageType::new(2), "{\"uuid\":\"dev\"}");
    maa_store_callback(&mut log, 1_700_000_000_001, MessageType::new(2), "not json");
    maa_store_callback(&mut log, 1_700_000_000_002, MessageType::new(2), "{}");
    let read = get_last_msg(&mut log, "dev", 5).unwrap();
    assert_eq!(read.len(), 1);
    assert_eq!(read[0].body, "{\"uuid\":\"dev\"}");
    assert_eq!(read[0].time, 1_700_000_000_000);
    assert_eq!(read[0].type_, MessageType::new(2));
    assert_eq!(get_all_uuid(&log).unwrap(), vec!["dev".to_string()]);
}

#[test]
fn device_key_is_the_identifier_or_else_the_json_text() {
    let string = Member { json: "\"abc\"".to_string(), string: Some("abc".to_string()) };
    assert_eq!(device_key(string), "abc");
    let number = Member { json: "17".to_string(), string: None };
    assert_eq!(device_key(number), "17");
    let empty = Member { json: "\"\"".to_string(), string: Some(String::new()) };
    assert_eq!(device_key(empty), "");
}

#[test]
fn message_inserted_last_is_read_first() {
    let mut log = MsgDb::new(fresh());
    insert_msg(&mut log, &msg("device", 1, "{\"n\":1}")).unwrap();
    let id = insert_msg(&mut log, &msg("device", 2, "{\"n\":2}")).unwrap();
    let read = get_last_msg(&mut log, "device", 1).unwrap();
    assert_eq!(read.len(), 1);
    assert_eq!((read[0].time, read[0].body.as_str()), (2, "{\"n\":2}"));
    let found = get_msg(&mut log, "device", id).unwrap().unwrap();
    assert_eq!((found.time, found.body.as_str(), found.uuid.as_str()), (2, "{\"n\":2}", "device"));
    assert_eq!(found.type_, MessageType::new(7));
}

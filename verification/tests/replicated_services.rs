use microbenchmarks::preemptive::{Key, Microbenchmark, PEReply, PERequest, PERequestType};
use microbenchmarks::ycsb::{Update, YcsbService};
use microbenchmarks::table::Table;
use std::time::Duration;

fn read(cf: &str, k: u8) -> PERequest {
    PERequest::new(Duration::from_millis(0), PERequestType::Read { cf_name: cf.to_string(), key: Key([k; 4]) })
}

fn write(cf: &str, k: u8, data: &[u8]) -> PERequest {
    PERequest::new(
        Duration::from_millis(1),
        PERequestType::Write { cf_name: cf.to_string(), key: Key([k; 4]), data: data.to_vec() },
    )
}

fn delete(cf: &str, k: u8) -> PERequest {
    PERequest::new(Duration::from_millis(0), PERequestType::Delete { cf_name: cf.to_string(), key: Key([k; 4]) })
}

fn reply_bytes(r: &PEReply) -> (bool, Option<Vec<u8>>) {
    match r {
        PEReply::ReadResult { data } => (true, data.clone()),
        PEReply::WriteResult { previous_value } => (false, previous_value.clone()),
    }
}

#[test]
fn read_after_write_gives_the_value() {
    let app = Microbenchmark::new(1);
    let mut state = Microbenchmark::initial_state();
    let r = app.update(&mut state, write("cf", 1, b"v1"));
    assert_eq!(reply_bytes(&r), (false, None));
    let r = app.update(&mut state, read("cf", 1));
    assert_eq!(reply_bytes(&r), (true, Some(b"v1".to_vec())));
    let r = app.unordered_execution(&state, read("other", 1));
    assert_eq!(reply_bytes(&r), (true, None));
}

#[test]
fn writes_and_deletes_answer_with_the_previous_value() {
    let app = Microbenchmark::new(1);
    let mut state = Microbenchmark::initial_state();
    app.update(&mut state, write("cf", 2, b"a"));
    let r = app.update(&mut state, write("cf", 2, b"b"));
    assert_eq!(reply_bytes(&r), (false, Some(b"a".to_vec())));
    let r = app.update(&mut state, delete("cf", 2));
    assert_eq!(reply_bytes(&r), (false, Some(b"b".to_vec())));
    let r = app.update(&mut state, delete("cf", 2));
    assert_eq!(reply_bytes(&r), (false, None));
    let r = app.update(&mut state, read("cf", 2));
    assert_eq!(reply_bytes(&r), (true, None));
}

#[test]
fn batches_run_in_order() {
    let app = Microbenchmark::new(7);
    let mut state = Microbenchmark::initial_state();
    let batch = vec![write("t", 1, b"x"), read("t", 1), write("t", 1, b"y"), delete("t", 1), read("t", 1)];
    let replies: Vec<(bool, Option<Vec<u8>>)> = app.update_batch(&mut state, batch).iter().map(reply_bytes).collect();
    assert_eq!(
        replies,
        vec![
            (false, None),
            (true, Some(b"x".to_vec())),
            (false, Some(b"x".to_vec())),
            (false, Some(b"y".to_vec())),
            (true, None),
        ]
    );
}

#[test]
fn other_keys_are_left_alone() {
    let app = Microbenchmark::new(1);
    let mut state = Microbenchmark::initial_state();
    app.update(&mut state, write("cf", 1, b"one"));
    app.update(&mut state, write("cf", 2, b"two"));
    app.update(&mut state, write("cf2", 1, b"other"));
    app.update(&mut state, delete("cf", 2));
    assert_eq!(state.get_value("cf", &Key([1; 4])), Some(b"one".to_vec()));
    assert_eq!(state.get_value("cf2", &Key([1; 4])), Some(b"other".to_vec()));
}

#[test]
fn request_accessors() {
    let r = write("cf", 3, b"z");
    assert_eq!(r.time_delay(), Duration::from_millis(1));
    match r.into_request_type() {
        PERequestType::Write { cf_name, key, data } => {
            assert_eq!((cf_name.as_str(), key.0, data), ("cf", [3u8; 4], b"z".to_vec()));
        }
        _ => panic!("expected a write"),
    }
}

#[test]
fn random_keys_have_four_bytes() {
    let k = Key::gen_random_key();
    assert_eq!(k.0.len(), 4);
}

#[test]
fn ycsb_update_then_read() {
    let mut service = YcsbService;
    let mut db = service.initial_state();
    let update = Update::decode(
        "usertable".to_string(),
        "user1".to_string(),
        vec![("field0".to_string(), b"a".to_vec()), ("field1".to_string(), b"b".to_vec()), ("field0".to_string(), b"c".to_vec())],
    );
    assert_eq!(service.update(&mut db, update), 0);
    let rec = db.get(&"usertable".to_string(), &"user1".to_string()).unwrap();
    assert_eq!(rec.len(), 2);
    assert_eq!(rec.get(&"field0".to_string()), Some(&b"c".to_vec()));
    assert_eq!(rec.get(&"field1".to_string()), Some(&b"b".to_vec()));
    assert!(db.get(&"usertable".to_string(), &"user2".to_string()).is_none());
}

#[test]
fn ycsb_update_replaces_the_whole_record() {
    let mut service = YcsbService;
    let mut db = service.initial_state();
    let mut first: Table<String, Vec<u8>> = Table::new();
    first.insert("a".to_string(), vec![1]);
    first.insert("b".to_string(), vec![2]);
    service.update(&mut db, Update { table: "t".to_string(), key: "k".to_string(), values: first });
    let mut second: Table<String, Vec<u8>> = Table::new();
    second.insert("c".to_string(), vec![3]);
    service.update(&mut db, Update { table: "t".to_string(), key: "k".to_string(), values: second });
    let rec = db.get(&"t".to_string(), &"k".to_string()).unwrap();
    assert_eq!(rec.len(), 1);
    assert!(!rec.contains_key(&"a".to_string()));
}

#[test]
fn families_show_the_stored_values() {
    let app = Microbenchmark::new(1);
    let mut state = Microbenchmark::initial_state();
    app.update(&mut state, write("cf", 1, b"x"));
    let families = state.families();
    assert_eq!(families.len(), 1);
    let cf = families.get(&"cf".to_string()).unwrap();
    assert_eq!(cf.get(&Key([1; 4])), Some(&b"x".to_vec()));
}

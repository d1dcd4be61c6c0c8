use tilekit::model_state::{get_state_file, ModelState, RunningModel};
use tilekit::snapshot::{from_json, to_json};

fn rec(name: &str, model_id: &str, pid: u32, started_at: &str) -> RunningModel {
    RunningModel {
        name: name.to_owned(),
        model_id: model_id.to_owned(),
        pid,
        started_at: started_at.to_owned(),
    }
}

#[test]
fn default_registry_is_empty() {
    let state = ModelState::default();
    assert!(state.is_empty());
    assert!(state.list_models().is_empty());
    assert!(state.get_model("anything").is_none());
}

#[test]
fn insert_get_remove() {
    let mut state = ModelState::default();
    state.insert_record(rec("m", "some/model", 42, "2024-01-01 00:00:00"));
    assert!(!state.is_empty());
    let got = state.get_model("m").expect("record should be present");
    assert_eq!(got.model_id, "some/model");
    assert_eq!(got.pid, 42);
    assert_eq!(got.started_at, "2024-01-01 00:00:00");
    let removed = state.remove_model("m").expect("record should be removed");
    assert_eq!(removed.name, "m");
    assert!(state.is_empty());
    assert!(state.get_model("m").is_none());
}

#[test]
fn insert_overwrites_same_name() {
    let mut state = ModelState::default();
    state.insert_record(rec("m", "a", 1, "t1"));
    state.insert_record(rec("m", "b", 2, "t2"));
    assert_eq!(state.list_models().len(), 1);
    let got = state.get_model("m").unwrap();
    assert_eq!(got.model_id, "b");
    assert_eq!(got.pid, 2);
}

#[test]
fn add_model_stamps_a_start_time() {
    let mut state = ModelState::default();
    state.add_model("m".to_owned(), "id".to_owned(), 7);
    let got = state.get_model("m").unwrap();
    assert_eq!(got.model_id, "id");
    assert_eq!(got.pid, 7);
}

#[test]
fn cleanup_stale_evicts_dead_pids() {
    let mut state = ModelState::default();
    state.insert_record(rec("a", "ma", 1, "t"));
    state.insert_record(rec("b", "mb", 2, "t"));
    state.insert_record(rec("c", "mc", 3, "t"));
    state.cleanup_stale(&vec![2]);
    let left = state.list_models();
    assert_eq!(left.len(), 1);
    assert_eq!(left[0].name, "b");
    assert!(state.get_model("a").is_none());
    assert!(state.get_model("c").is_none());
}

#[test]
fn cleanup_stale_keeps_everything_alive() {
    let mut state = ModelState::default();
    state.insert_record(rec("a", "ma", 1, "t"));
    state.insert_record(rec("b", "mb", 2, "t"));
    state.cleanup_stale(&vec![1, 2, 99]);
    assert_eq!(state.list_models().len(), 2);
}

#[test]
fn snapshot_round_trip_one_record() {
    let mut state = ModelState::default();
    state.insert_record(rec("m", "some/model", 42, "2024-01-01 00:00:00"));
    let text = to_json(&state);
    let loaded = from_json(&text).expect("written snapshot should load");
    let got = loaded.get_model("m").expect("record should survive the trip");
    assert_eq!(got.name, "m");
    assert_eq!(got.model_id, "some/model");
    assert_eq!(got.pid, 42);
    assert_eq!(got.started_at, "2024-01-01 00:00:00");
}

#[test]
fn snapshot_round_trip_special_characters() {
    let mut state = ModelState::default();
    state.insert_record(rec("we\"ird\\name", "id\nwith\tthings", 7, "t \u{1} end"));
    state.insert_record(rec("plain", "p", 8, "t"));
    let text = to_json(&state);
    let loaded = from_json(&text).expect("escaped snapshot should load");
    let got = loaded.get_model("we\"ird\\name").unwrap();
    assert_eq!(got.model_id, "id\nwith\tthings");
    assert_eq!(got.started_at, "t \u{1} end");
    assert_eq!(loaded.list_models().len(), 2);
}

#[test]
fn snapshot_round_trip_empty() {
    let state = ModelState::default();
    let text = to_json(&state);
    assert_eq!(text, "{\"models\":{}}");
    let loaded = from_json(&text).unwrap();
    assert!(loaded.is_empty());
}

#[test]
fn snapshot_emits_the_documented_shape() {
    let mut state = ModelState::default();
    state.insert_record(rec("m", "id", 42, "2024-01-01 00:00:00"));
    assert_eq!(
        to_json(&state),
        "{\"models\":{\"m\":{\"name\":\"m\",\"model_id\":\"id\",\"pid\":42,\"started_at\":\"2024-01-01 00:00:00\"}}}"
    );
}

#[test]
fn snapshot_agrees_with_a_json_library() {
    let mut state = ModelState::default();
    state.insert_record(rec("we\"ird", "a/b", 42, "late\nnight"));
    let text = to_json(&state);
    let v: serde_json::Value = serde_json::from_str(&text).expect("snapshot should be JSON");
    let entry = &v["models"]["we\"ird"];
    assert_eq!(entry["name"], serde_json::Value::String("we\"ird".to_owned()));
    assert_eq!(entry["model_id"], serde_json::Value::String("a/b".to_owned()));
    assert_eq!(entry["pid"], serde_json::Value::from(42u32));
    assert_eq!(
        entry["started_at"],
        serde_json::Value::String("late\nnight".to_owned())
    );
}

#[test]
fn snapshot_reads_strings_a_json_library_escapes() {
    let name = "we\"ird\nname\u{7}";
    let name_j = serde_json::to_string(&serde_json::Value::String(name.to_owned())).unwrap();
    let id_j = serde_json::to_string(&serde_json::Value::String("a\\b\tc".to_owned())).unwrap();
    let ts_j = serde_json::to_string(&serde_json::Value::String("t".to_owned())).unwrap();
    let text = format!(
        "{{\"models\":{{{}:{{\"name\":{},\"model_id\":{},\"pid\":9,\"started_at\":{}}}}}}}",
        name_j, name_j, id_j, ts_j
    );
    let loaded = from_json(&text).expect("library-escaped snapshot should load");
    let got = loaded.get_model(name).unwrap();
    assert_eq!(got.model_id, "a\\b\tc");
    assert_eq!(got.pid, 9);
}

#[test]
fn malformed_snapshots_are_refused() {
    assert!(from_json("").is_err());
    assert!(from_json("garbage").is_err());
    assert!(from_json("{\"models\":{").is_err());
    assert!(from_json("{\"models\":{}} trailing").is_err());
    // a key that disagrees with its record's name
    assert!(from_json(
        "{\"models\":{\"k\":{\"name\":\"m\",\"model_id\":\"id\",\"pid\":1,\"started_at\":\"t\"}}}"
    )
    .is_err());
    // the same name twice
    assert!(from_json(
        "{\"models\":{\"m\":{\"name\":\"m\",\"model_id\":\"a\",\"pid\":1,\"started_at\":\"t\"},\"m\":{\"name\":\"m\",\"model_id\":\"b\",\"pid\":2,\"started_at\":\"t\"}}}"
    )
    .is_err());
}

#[test]
fn state_file_sits_in_the_config_dir() {
    assert_eq!(
        get_state_file("/home/u/.tiles"),
        "/home/u/.tiles/models.json"
    );
}

use tilekit::lifecycle::{
    apply_stop, is_daemon_resident, load_request_body, start_run, subprocess_args,
    LifecycleError, ProbeStep, RunControl, StartDecision,
};
use tilekit::model_state::{ModelState, RunningModel};
use tilekit::modelfile::parse;
use tilekit::paths::{
    config_dir_path, memory_dir_path, memory_path_marker, registry_dir_path,
    registry_modelfile_path, server_pid_path,
};
use tilekit::snapshot::to_json;

fn rec(name: &str, pid: u32) -> RunningModel {
    RunningModel {
        name: name.to_owned(),
        model_id: "driaforall/mem-agent".to_owned(),
        pid,
        started_at: "t".to_owned(),
    }
}

fn daemon_modelfile() -> tilekit::modelfile::Modelfile {
    parse("FROM driaforall/mem-agent").unwrap()
}

#[test]
fn daemon_residency_is_a_prefix_check() {
    assert!(is_daemon_resident("driaforall/mem-agent"));
    assert!(is_daemon_resident("driaforall/mem-agent-v2"));
    assert!(!is_daemon_resident("llama3.2"));
    assert!(!is_daemon_resident("driaforall/mem"));
}

#[test]
fn run_conflict_leaves_registry_unchanged() {
    let mut state = ModelState::default();
    state.insert_record(rec("m", 1));
    let before = to_json(&state);
    let err = start_run(&state, "m", &daemon_modelfile()).unwrap_err();
    assert!(matches!(err, LifecycleError::Conflict));
    assert_eq!(to_json(&state), before);
}

#[test]
fn run_of_foreground_model_skips_the_daemon() {
    let state = ModelState::default();
    let m = parse("FROM llama3.2").unwrap();
    match start_run(&state, "m", &m).unwrap() {
        StartDecision::Foreground => {}
        StartDecision::Orchestrate(_) => panic!("a plain model must run in the foreground"),
    }
}

fn open_session() -> RunControl {
    let state = ModelState::default();
    match start_run(&state, "m", &daemon_modelfile()).unwrap() {
        StartDecision::Orchestrate(c) => c,
        StartDecision::Foreground => panic!("a mem-agent model must be orchestrated"),
    }
}

#[test]
fn daemon_poll_gives_up_after_its_budget() {
    let mut c = open_session();
    assert_eq!(c.on_probe(false), ProbeStep::SpawnDaemon);
    for _ in 0..14 {
        assert_eq!(c.on_probe(false), ProbeStep::Retry);
    }
    assert_eq!(c.on_probe(false), ProbeStep::TimedOut);
}

#[test]
fn daemon_ready_midway_moves_on_to_loading() {
    let mut c = open_session();
    assert_eq!(c.on_probe(false), ProbeStep::SpawnDaemon);
    assert_eq!(c.on_probe(false), ProbeStep::Retry);
    assert_eq!(c.on_probe(true), ProbeStep::DaemonReady);
}

#[test]
fn failed_load_fails_the_run_and_registers_nothing() {
    let mut state = ModelState::default();
    let mut c = open_session();
    assert_eq!(c.on_probe(true), ProbeStep::DaemonReady);
    let err = c.on_load_result(false).unwrap_err();
    assert!(matches!(err, LifecycleError::DaemonRequestFailed));
    assert!(state.is_empty());
}

#[test]
fn successful_run_registers_under_the_daemon_pid() {
    let mut state = ModelState::default();
    let mut c = open_session();
    assert_eq!(c.on_probe(true), ProbeStep::DaemonReady);
    let body = c.load_request_body("/home/u/.tiles/memory");
    assert_eq!(
        body,
        "{\"model\":\"driaforall/mem-agent\",\"memory_path\":\"/home/u/.tiles/memory\"}"
    );
    c.on_load_result(true).unwrap();
    c.register(&mut state, 777);
    let got = state.get_model("m").unwrap();
    assert_eq!(got.model_id, "driaforall/mem-agent");
    assert_eq!(got.pid, 777);
}

#[test]
fn request_body_escapes_its_strings() {
    assert_eq!(
        load_request_body("a\"b", "/tmp/mem\n"),
        "{\"model\":\"a\\\"b\",\"memory_path\":\"/tmp/mem\\n\"}"
    );
}

#[test]
fn stop_unknown_name_is_not_found_and_changes_nothing() {
    let mut state = ModelState::default();
    state.insert_record(rec("other", 1));
    let before = to_json(&state);
    let err = apply_stop(&mut state, "m").unwrap_err();
    assert!(matches!(err, LifecycleError::NotFound));
    assert_eq!(to_json(&state), before);
}

#[test]
fn stop_of_one_of_many_does_not_cascade() {
    let mut state = ModelState::default();
    state.insert_record(rec("a", 1));
    state.insert_record(rec("b", 2));
    let stop_daemon = apply_stop(&mut state, "a").unwrap();
    assert!(!stop_daemon);
    assert!(state.get_model("a").is_none());
    assert!(state.get_model("b").is_some());
}

#[test]
fn stop_of_last_record_cascades_into_daemon_stop() {
    let mut state = ModelState::default();
    state.insert_record(rec("m", 1));
    let stop_daemon = apply_stop(&mut state, "m").unwrap();
    assert!(stop_daemon);
    assert!(state.is_empty());
}

#[test]
fn subprocess_args_map_the_recognized_parameters() {
    let m = parse(
        "FROM mlx-model\nPARAMETER num_predict 10\nPARAMETER temperature 0.5\nPARAMETER num_ctx 4\nPARAMETER top_p 0.9\nPARAMETER seed -2\nSYSTEM be kind\nADAPTER /tmp/ad",
    )
    .unwrap();
    let args = subprocess_args(&m);
    assert_eq!(
        args,
        vec![
            "--model",
            "mlx-model",
            "--max-tokens",
            "10",
            "--temp",
            "0.5",
            "--top-p",
            "0.9",
            "--seed",
            "-2",
            "--system-prompt",
            "be kind",
            "--adapter-path",
            "/tmp/ad",
        ]
    );
}

#[test]
fn subprocess_args_minimal() {
    let m = parse("FROM mlx-model").unwrap();
    assert_eq!(subprocess_args(&m), vec!["--model", "mlx-model"]);
}

#[test]
fn filesystem_layout_paths() {
    assert_eq!(config_dir_path("/home/u"), "/home/u/.tiles");
    assert_eq!(registry_dir_path("/home/u/.tiles"), "/home/u/.tiles/registry");
    assert_eq!(
        registry_modelfile_path("/home/u/.tiles/registry", "memgpt"),
        "/home/u/.tiles/registry/memgpt/Modelfile"
    );
    assert_eq!(
        server_pid_path("/home/u/.tiles"),
        "/home/u/.tiles/server.pid"
    );
    assert_eq!(memory_dir_path("/home/u/.tiles"), "/home/u/.tiles/memory");
    assert_eq!(
        memory_path_marker("/home/u/.tiles"),
        "/home/u/.tiles/.memory_path"
    );
}
